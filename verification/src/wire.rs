//! A wire form for broadcast messages. Every value is rendered as
//! text: numbers as canonical digit runs ended by `;`, strings with a
//! digit-run length prefix and `:` (so no escaping is ever needed),
//! lists with a leading count, enum variants with a one-letter tag.
//! The wire text of a value determines its whole content, and the
//! reader is exact both ways: whatever it accepts is the text's value,
//! and it refuses a position only when no value's wire text sits there.

use vstd::prelude::*;
use vstd::string::*;
use crate::codec::{
    canonical_nat_at, lemma_canonical_nat_at_unique, parse_canonical_u64,
};
use crate::decimal::{dec_digits, is_digit, lemma_dec_val_of_digits, u64_to_dec};
use crate::types::{
    CertifiedCheckpointSummary, CheckpointContents, CheckpointData, CheckpointTransaction,
    Command, CreatedObject, DeletedObject, Event, GasEffects, ModifiedObject, ObjectChange,
    ObjectChangeKind, Owner, SharedObjectMutation, TransactionData, TransactionEffects,
    TransactionInput, TransactionKind, TransactionStatus,
};
use crate::ingestion::IngestionMessage;

verus! {

/// `w` occurs in `s` at position `at`.
pub open spec fn wire_at(s: Seq<char>, at: int, w: Seq<char>) -> bool {
    &&& 0 <= at
    &&& at + w.len() <= s.len()
    &&& s.subrange(at, at + w.len()) == w
}

/// A text occurring somewhere splits into its two halves in place.
proof fn lemma_wire_split(s: Seq<char>, at: int, w1: Seq<char>, w2: Seq<char>)
    requires
        wire_at(s, at, w1 + w2),
    ensures
        wire_at(s, at, w1),
        wire_at(s, at + w1.len(), w2),
{
    let w = w1 + w2;
    assert forall|j: int| 0 <= j < w1.len() implies s.subrange(at, at + w1.len())[j]
        == w1[j] by {
        assert(s.subrange(at, at + w.len())[j] == w[j]);
    }
    assert(s.subrange(at, at + w1.len()) =~= w1);
    assert forall|j: int| 0 <= j < w2.len() implies s.subrange(
        at + w1.len(),
        at + w.len(),
    )[j] == w2[j] by {
        assert(s.subrange(at, at + w.len())[w1.len() + j] == w[w1.len() + j]);
    }
    assert(s.subrange(at + w1.len(), at + w.len()) =~= w2);
}

/// A value with a wire form. The reader is exact: whatever it accepts
/// is the text's value, and it answers `None` only where no value's
/// wire text begins. Wire texts are prefix-free: two values whose
/// texts start at the same spot have the same content (`eqv`, which
/// compares strings by their characters).
pub trait Wire: Sized {
    /// The wire text of this value.
    spec fn wire(&self) -> Seq<char>;

    /// Content equality: equal fields, with strings compared by their
    /// characters.
    spec fn eqv(&self, other: &Self) -> bool;

    /// No value's wire text is empty.
    proof fn wire_nonempty(v: &Self)
        ensures
            v.wire().len() >= 1,
    ;

    /// Appends the wire text of this value.
    fn write(&self, out: &mut String)
        ensures
            final(out)@ == old(out)@ + self.wire(),
    ;

    /// Reads one value beginning at `at`; exactly when one sits there.
    fn read(s: &str, at: usize) -> (r: Option<(Self, usize)>)
        requires
            at <= s@.len(),
        ensures
            match r {
                Some((v, end)) => at <= end <= s@.len() && s@.subrange(at as int, end as int)
                    == v.wire(),
                None => forall|v: Self| !wire_at(s@, at as int, v.wire()),
            },
    ;

    /// Wire texts are prefix-free: values whose texts start at the same
    /// position have the same content and the same text.
    proof fn wire_prefix_free(s: Seq<char>, at: int, v1: &Self, v2: &Self)
        requires
            wire_at(s, at, v1.wire()),
            wire_at(s, at, v2.wire()),
        ensures
            v1.eqv(v2),
            v1.wire() == v2.wire(),
    ;
}

/// A digit run ended by a non-digit sits canonically in `s`.
proof fn lemma_terminated_digits(s: Seq<char>, at: int, n: nat, t: char)
    requires
        wire_at(s, at, dec_digits(n) + seq![t]),
        !is_digit(t),
    ensures
        canonical_nat_at(s, at, n),
{
    lemma_dec_val_of_digits(n);
    let d = dec_digits(n);
    let w = d + seq![t];
    lemma_wire_split(s, at, d, seq![t]);
    assert(s.subrange(at + d.len(), at + d.len() + 1)[0] == t);
}

impl Wire for u64 {
    open spec fn wire(&self) -> Seq<char> {
        dec_digits(*self as nat) + ";"@
    }

    open spec fn eqv(&self, other: &Self) -> bool {
        *self == *other
    }

    proof fn wire_nonempty(v: &Self) {
        lemma_dec_val_of_digits(*v as nat);
    }

    fn write(&self, out: &mut String) {
        let d = u64_to_dec(*self);
        out.append(d.as_str());
        out.append(";");
        proof {
            assert(final(out)@ =~= old(out)@ + self.wire());
        }
    }

    fn read(s: &str, at: usize) -> (r: Option<(Self, usize)>) {
        let n: usize = s.unicode_len();
        proof {
            reveal_strlit(";");
            assert(";"@ =~= seq![';']);
        }
        match parse_canonical_u64(s, at) {
            Some((v, e)) => {
                if e < n && s.get_char(e) == ';' {
                    proof {
                        assert(s@.subrange(at as int, e + 1) =~= dec_digits(v as nat)
                            + ";"@);
                    }
                    Some((v, e + 1))
                } else {
                    proof {
                        reveal_strlit(";");
                        assert(";"@ =~= seq![';']);
                        assert forall|v2: Self| !wire_at(s@, at as int, v2.wire()) by {
                            if wire_at(s@, at as int, v2.wire()) {
                                assert(wire_at(s@, at as int, dec_digits(v2 as nat) + seq![
                                    ';',
                                ])) by {
                                    assert(dec_digits(v2 as nat) + seq![';'] =~= v2.wire());
                                }
                                lemma_terminated_digits(s@, at as int, v2 as nat, ';');
                                lemma_canonical_nat_at_unique(
                                    s@,
                                    at as int,
                                    v2 as nat,
                                    v as nat,
                                );
                                lemma_wire_split(
                                    s@,
                                    at as int,
                                    dec_digits(v2 as nat),
                                    seq![';'],
                                );
                                assert(s@.subrange(e as int, e + 1)[0] == ';');
                                assert(false);
                            }
                        }
                    }
                    None
                }
            },
            None => {
                proof {
                    reveal_strlit(";");
                    assert(";"@ =~= seq![';']);
                    assert forall|v2: Self| !wire_at(s@, at as int, v2.wire()) by {
                        if wire_at(s@, at as int, v2.wire()) {
                            assert(wire_at(s@, at as int, dec_digits(v2 as nat) + seq![
                                ';',
                            ])) by {
                                assert(dec_digits(v2 as nat) + seq![';'] =~= v2.wire());
                            }
                            lemma_terminated_digits(s@, at as int, v2 as nat, ';');
                            assert(v2 as nat <= u64::MAX);
                            assert(false);
                        }
                    }
                }
                None
            },
        }
    }

    proof fn wire_prefix_free(s: Seq<char>, at: int, v1: &Self, v2: &Self) {
        reveal_strlit(";");
        assert(";"@ =~= seq![';']);
        assert(v1.wire() == dec_digits(*v1 as nat) + seq![';']);
        assert(v2.wire() == dec_digits(*v2 as nat) + seq![';']);
        lemma_terminated_digits(s, at, *v1 as nat, ';');
        lemma_terminated_digits(s, at, *v2 as nat, ';');
        lemma_canonical_nat_at_unique(s, at, *v1 as nat, *v2 as nat);
    }
}

impl Wire for String {
    open spec fn wire(&self) -> Seq<char> {
        dec_digits(self@.len()) + ":"@ + self@
    }

    open spec fn eqv(&self, other: &Self) -> bool {
        self@ == other@
    }

    proof fn wire_nonempty(v: &Self) {
        lemma_dec_val_of_digits(v@.len());
    }

    fn write(&self, out: &mut String) {
        let n: usize = self.as_str().unicode_len();
        let d = u64_to_dec(n as u64);
        out.append(d.as_str());
        out.append(":");
        out.append(self.as_str());
        proof {
            assert(final(out)@ =~= old(out)@ + self.wire());
        }
    }

    fn read(s: &str, at: usize) -> (r: Option<(Self, usize)>) {
        let n: usize = s.unicode_len();
        proof {
            reveal_strlit(":");
            assert(":"@ =~= seq![':']);
        }
        match parse_canonical_u64(s, at) {
            Some((v, e)) => {
                if e < n && s.get_char(e) == ':' && v <= (n - e - 1) as u64 {
                    let len: usize = v as usize;
                    let content = s.substring_char(e + 1, e + 1 + len);
                    let owned = content.to_owned();
                    proof {
                        lemma_dec_val_of_digits(v as nat);
                        assert(owned@.len() == v as nat);
                        assert(s@.subrange(at as int, e + 1 + len) =~= dec_digits(
                            owned@.len(),
                        ) + ":"@ + owned@);
                    }
                    Some((owned, e + 1 + len))
                } else {
                    proof {
                        reveal_strlit(":");
                        assert(":"@ =~= seq![':']);
                        assert forall|v2: Self| !wire_at(s@, at as int, v2.wire()) by {
                            if wire_at(s@, at as int, v2.wire()) {
                                assert(wire_at(s@, at as int, (dec_digits(v2@.len()) + seq![
                                    ':',
                                ]) + v2@)) by {
                                    assert((dec_digits(v2@.len()) + seq![':']) + v2@
                                        =~= v2.wire());
                                }
                                lemma_wire_split(
                                    s@,
                                    at as int,
                                    dec_digits(v2@.len()) + seq![':'],
                                    v2@,
                                );
                                lemma_terminated_digits(s@, at as int, v2@.len(), ':');
                                lemma_canonical_nat_at_unique(
                                    s@,
                                    at as int,
                                    v2@.len(),
                                    v as nat,
                                );
                                lemma_wire_split(
                                    s@,
                                    at as int,
                                    dec_digits(v2@.len()),
                                    seq![':'],
                                );
                                assert(s@.subrange(e as int, e + 1)[0] == ':');
                                assert(at + dec_digits(v2@.len()).len() + 1 + v2@.len()
                                    <= s@.len());
                                assert(false);
                            }
                        }
                    }
                    None
                }
            },
            None => {
                proof {
                    reveal_strlit(":");
                    assert(":"@ =~= seq![':']);
                    assert forall|v2: Self| !wire_at(s@, at as int, v2.wire()) by {
                        if wire_at(s@, at as int, v2.wire()) {
                            assert(wire_at(s@, at as int, (dec_digits(v2@.len()) + seq![
                                ':',
                            ]) + v2@)) by {
                                assert((dec_digits(v2@.len()) + seq![':']) + v2@
                                    =~= v2.wire());
                            }
                            lemma_wire_split(
                                s@,
                                at as int,
                                dec_digits(v2@.len()) + seq![':'],
                                v2@,
                            );
                            lemma_terminated_digits(s@, at as int, v2@.len(), ':');
                            assert(v2@.len() <= s@.len());
                            assert(s@.len() <= usize::MAX);
                            assert(false);
                        }
                    }
                }
                None
            },
        }
    }

    proof fn wire_prefix_free(s: Seq<char>, at: int, v1: &Self, v2: &Self) {
        reveal_strlit(":");
        assert(":"@ =~= seq![':']);
        let n1 = v1@.len();
        let n2 = v2@.len();
        assert(wire_at(s, at, (dec_digits(n1) + seq![':']) + v1@)) by {
            assert((dec_digits(n1) + seq![':']) + v1@ =~= v1.wire());
        }
        assert(wire_at(s, at, (dec_digits(n2) + seq![':']) + v2@)) by {
            assert((dec_digits(n2) + seq![':']) + v2@ =~= v2.wire());
        }
        lemma_wire_split(s, at, dec_digits(n1) + seq![':'], v1@);
        lemma_wire_split(s, at, dec_digits(n2) + seq![':'], v2@);
        lemma_terminated_digits(s, at, n1, ':');
        lemma_terminated_digits(s, at, n2, ':');
        lemma_canonical_nat_at_unique(s, at, n1, n2);
        let p = at + dec_digits(n1).len() + 1;
        assert(v1@ =~= v2@) by {
            assert(forall|i: int| 0 <= i < n1 ==> v1@[i] == s[p + i]);
            assert(forall|i: int| 0 <= i < n2 ==> v2@[i] == s[p + i]);
        }
        assert(v1.wire() =~= v2.wire());
    }
}

impl<T: Wire> Wire for Option<T> {
    open spec fn wire(&self) -> Seq<char> {
        match self {
            Option::None => seq!['n'],
            Option::Some(x) => seq!['s'] + x.wire(),
        }
    }

    open spec fn eqv(&self, other: &Self) -> bool {
        match (self, other) {
            (Option::None, Option::None) => true,
            (Option::Some(a), Option::Some(b)) => a.eqv(b),
            _ => false,
        }
    }

    proof fn wire_nonempty(v: &Self) {
        match v {
            Option::None => {},
            Option::Some(x) => {
                assert(v.wire()[0] == 's');
            },
        }
    }

    fn write(&self, out: &mut String) {
        match self {
            Option::None => {
                out.append("n");
                proof {
                    reveal_strlit("n");
                    assert(final(out)@ =~= old(out)@ + self.wire());
                }
            },
            Option::Some(x) => {
                out.append("s");
                x.write(out);
                proof {
                    reveal_strlit("s");
                    assert(final(out)@ =~= old(out)@ + self.wire());
                }
            },
        }
    }

    fn read(s: &str, at: usize) -> (r: Option<(Self, usize)>) {
        let n: usize = s.unicode_len();
        if at >= n {
            proof {
                assert forall|v: Self| !wire_at(s@, at as int, v.wire()) by {
                    if wire_at(s@, at as int, v.wire()) {
                        Self::wire_nonempty(&v);
                    }
                }
            }
            return None;
        }
        let tag = s.get_char(at);
        if tag == 'n' {
            proof {
                assert(s@.subrange(at as int, at + 1) =~= seq!['n']);
            }
            Some((None, at + 1))
        } else if tag == 's' {
            match T::read(s, at + 1) {
                Some((x, e)) => {
                    proof {
                        assert(s@.subrange(at as int, e as int) =~= seq!['s'] + x.wire());
                    }
                    Some((Some(x), e))
                },
                None => {
                    proof {
                        assert forall|v: Self| !wire_at(s@, at as int, v.wire()) by {
                            if wire_at(s@, at as int, v.wire()) {
                                Self::wire_nonempty(&v);
                                assert(s@.subrange(at as int, at + v.wire().len())[0]
                                    == v.wire()[0]);
                                match v {
                                    Option::None => {
                                        assert(s@[at as int] == 'n');
                                        assert(false);
                                    },
                                    Option::Some(x2) => {
                                        lemma_wire_split(
                                            s@,
                                            at as int,
                                            seq!['s'],
                                            x2.wire(),
                                        );
                                        assert(false);
                                    },
                                }
                            }
                        }
                    }
                    None
                },
            }
        } else {
            proof {
                assert forall|v: Self| !wire_at(s@, at as int, v.wire()) by {
                    if wire_at(s@, at as int, v.wire()) {
                        Self::wire_nonempty(&v);
                        assert(s@.subrange(at as int, at + v.wire().len())[0]
                            == v.wire()[0]);
                        match v {
                            Option::None => {
                                assert(s@[at as int] == 'n');
                                assert(false);
                            },
                            Option::Some(x2) => {
                                assert(s@[at as int] == 's');
                                assert(false);
                            },
                        }
                    }
                }
            }
            None
        }
    }

    proof fn wire_prefix_free(s: Seq<char>, at: int, v1: &Self, v2: &Self) {
        assert(s[at] == v1.wire()[0]);
        assert(s[at] == v2.wire()[0]);
        match (v1, v2) {
            (Option::Some(a), Option::Some(b)) => {
                lemma_wire_split(s, at, seq!['s'], a.wire());
                assert(wire_at(s, at, seq!['s'] + a.wire()));
                assert(wire_at(s, at, seq!['s'] + b.wire()));
                lemma_wire_split(s, at, seq!['s'], b.wire());
                T::wire_prefix_free(s, at + 1, a, b);
            },
            (Option::None, Option::None) => {},
            _ => {
                assert(false);
            },
        }
    }
}

/// The concatenated wire texts of a list of values.
pub open spec fn wires_cat<T: Wire>(items: Seq<T>) -> Seq<char>
    decreases items.len(),
{
    if items.len() == 0 {
        Seq::empty()
    } else {
        wires_cat(items.drop_last()) + items.last().wire()
    }
}

/// Every value's wire text is non-empty, so a list's wire text is at
/// least as long as the list.
proof fn lemma_wires_cat_len<T: Wire>(items: Seq<T>)
    ensures
        wires_cat(items).len() >= items.len(),
    decreases items.len(),
{
    if items.len() > 0 {
        lemma_wires_cat_len::<T>(items.drop_last());
        T::wire_nonempty(&items.last());
    }
}

/// A list's wire text splits at any point into the two halves' texts.
proof fn lemma_wires_cat_split<T: Wire>(items: Seq<T>, m: int)
    requires
        0 <= m <= items.len(),
    ensures
        wires_cat(items) == wires_cat(items.subrange(0, m)) + wires_cat(
            items.subrange(m, items.len() as int),
        ),
    decreases items.len(),
{
    let l = items.len() as int;
    if m == l {
        assert(items.subrange(0, m) =~= items);
        assert(items.subrange(m, l) =~= Seq::<T>::empty());
        assert(wires_cat(items) =~= wires_cat(items.subrange(0, m)) + wires_cat(
            items.subrange(m, l),
        ));
    } else {
        let i0 = items.drop_last();
        lemma_wires_cat_split::<T>(i0, m);
        assert(items.subrange(0, m) =~= i0.subrange(0, m));
        assert(items.subrange(m, l).drop_last() =~= i0.subrange(m, l - 1));
        assert(items.subrange(m, l).last() == items.last());
        assert(wires_cat(items.subrange(m, l)) == wires_cat(i0.subrange(m, l - 1))
            + items.last().wire());
        assert(wires_cat(items) =~= wires_cat(items.subrange(0, m)) + wires_cat(
            items.subrange(m, l),
        ));
    }
}

/// A non-empty list's wire text begins with its first element's.
proof fn lemma_wires_cat_first<T: Wire>(items: Seq<T>)
    requires
        items.len() >= 1,
    ensures
        wires_cat(items) == items[0].wire() + wires_cat(items.drop_first()),
    decreases items.len(),
{
    if items.len() == 1 {
        assert(items.drop_last() =~= Seq::<T>::empty());
        assert(items.drop_first() =~= Seq::<T>::empty());
        assert(items.last() == items[0]);
        assert(wires_cat(items) =~= items[0].wire() + wires_cat(items.drop_first()));
    } else {
        let i0 = items.drop_last();
        lemma_wires_cat_first::<T>(i0);
        assert(i0[0] == items[0]);
        assert(items.drop_first().drop_last() =~= i0.drop_first());
        assert(items.drop_first().last() == items.last());
        assert(wires_cat(items.drop_first()) == wires_cat(i0.drop_first())
            + items.last().wire());
        assert(wires_cat(items) =~= items[0].wire() + wires_cat(items.drop_first()));
    }
}

/// Equally many values laid out one after another at the same place
/// agree pairwise and span the same text.
proof fn lemma_items_prefix_free<T: Wire>(s: Seq<char>, at: int, a: Seq<T>, b: Seq<T>)
    requires
        a.len() == b.len(),
        wire_at(s, at, wires_cat(a)),
        wire_at(s, at, wires_cat(b)),
    ensures
        forall|i: int| 0 <= i < a.len() ==> #[trigger] a[i].eqv(&b[i]),
        wires_cat(a) == wires_cat(b),
    decreases a.len(),
{
    if a.len() > 0 {
        let a0 = a.drop_last();
        let b0 = b.drop_last();
        assert(wires_cat(a) == wires_cat(a0) + a.last().wire());
        assert(wires_cat(b) == wires_cat(b0) + b.last().wire());
        lemma_wire_split(s, at, wires_cat(a0), a.last().wire());
        lemma_wire_split(s, at, wires_cat(b0), b.last().wire());
        lemma_items_prefix_free::<T>(s, at, a0, b0);
        T::wire_prefix_free(s, at + wires_cat(a0).len(), &a.last(), &b.last());
        assert(forall|i: int| 0 <= i < a.len() - 1 ==> a0[i] == a[i] && b0[i] == b[i]);
        assert(a[a.len() - 1].eqv(&b[a.len() - 1]));
        assert(wires_cat(a) =~= wires_cat(b));
    }
}

impl<T: Wire> Wire for Vec<T> {
    open spec fn wire(&self) -> Seq<char> {
        dec_digits(self@.len()) + ";"@ + wires_cat(self@)
    }

    open spec fn eqv(&self, other: &Self) -> bool {
        &&& self@.len() == other@.len()
        &&& forall|i: int| 0 <= i < self@.len() ==> #[trigger] self@[i].eqv(&other@[i])
    }

    proof fn wire_nonempty(v: &Self) {
        lemma_dec_val_of_digits(v@.len());
    }

    fn write(&self, out: &mut String) {
        let d = u64_to_dec(self.len() as u64);
        out.append(d.as_str());
        out.append(";");
        let ghost base = out@;
        let mut i: usize = 0;
        while i < self.len()
            invariant
                0 <= i <= self@.len(),
                out@ == base + wires_cat(self@.subrange(0, i as int)),
            decreases self@.len() - i,
        {
            proof {
                assert(self@.subrange(0, i + 1).drop_last() =~= self@.subrange(0, i as int));
                assert(self@.subrange(0, i + 1).last() == self@[i as int]);
            }
            self[i].write(out);
            proof {
                assert(out@ =~= base + wires_cat(self@.subrange(0, i + 1)));
            }
            i = i + 1;
        }
        proof {
            assert(self@.subrange(0, self@.len() as int) =~= self@);
            assert(final(out)@ =~= old(out)@ + self.wire());
        }
    }

    #[verifier::rlimit(80)]
    fn read(s: &str, at: usize) -> (r: Option<(Self, usize)>) {
        let n: usize = s.unicode_len();
        proof {
            reveal_strlit(";");
            assert(";"@ =~= seq![';']);
        }
        match parse_canonical_u64(s, at) {
            Some((count, e0)) => {
                if !(e0 < n && s.get_char(e0) == ';') {
                    proof {
                        reveal_strlit(";");
                        assert(";"@ =~= seq![';']);
                        assert forall|v: Self| !wire_at(s@, at as int, v.wire()) by {
                            if wire_at(s@, at as int, v.wire()) {
                                assert(wire_at(s@, at as int, (dec_digits(v@.len()) + seq![
                                    ';',
                                ]) + wires_cat(v@))) by {
                                    assert((dec_digits(v@.len()) + seq![';']) + wires_cat(v@)
                                        =~= v.wire());
                                }
                                lemma_wire_split(
                                    s@,
                                    at as int,
                                    dec_digits(v@.len()) + seq![';'],
                                    wires_cat(v@),
                                );
                                lemma_terminated_digits(s@, at as int, v@.len(), ';');
                                lemma_canonical_nat_at_unique(
                                    s@,
                                    at as int,
                                    v@.len(),
                                    count as nat,
                                );
                                lemma_wire_split(
                                    s@,
                                    at as int,
                                    dec_digits(v@.len()),
                                    seq![';'],
                                );
                                assert(s@.subrange(e0 as int, e0 + 1)[0] == ';');
                                assert(false);
                            }
                        }
                    }
                    return None;
                }
                let start = e0 + 1;
                proof {
                    assert(s@.subrange(at as int, start as int) =~= dec_digits(count as nat)
                        + ";"@);
                }
                let mut items: Vec<T> = Vec::new();
                let mut cur: usize = start;
                let mut k: u64 = 0;
                proof {
                    assert(s@.subrange(start as int, cur as int) =~= wires_cat(items@));
                }
                while k < count
                    invariant
                        0 <= k <= count,
                        at <= s@.len(),
                        start <= cur <= s@.len(),
                        canonical_nat_at(s@, at as int, count as nat),
                        start == at + dec_digits(count as nat).len() + 1,
                        s@[start - 1] == ';',
                        items@.len() == k,
                        s@.subrange(start as int, cur as int) == wires_cat(items@),
                    decreases count - k,
                {
                    match T::read(s, cur) {
                        Some((x, e)) => {
                            let ghost pre = items@;
                            items.push(x);
                            proof {
                                assert(items@.drop_last() =~= pre);
                                assert(items@.last() == x);
                                assert(s@.subrange(start as int, e as int) =~= wires_cat(
                                    pre,
                                ) + x.wire());
                            }
                            cur = e;
                        },
                        None => {
                            proof {
                                reveal_strlit(";");
                                assert(";"@ =~= seq![';']);
                                assert forall|v: Self| !wire_at(s@, at as int, v.wire()) by {
                                    if wire_at(s@, at as int, v.wire()) {
                                        assert(wire_at(s@, at as int, (dec_digits(v@.len())
                                            + seq![';']) + wires_cat(v@))) by {
                                            assert((dec_digits(v@.len()) + seq![';'])
                                                + wires_cat(v@) =~= v.wire());
                                        }
                                        lemma_wire_split(
                                            s@,
                                            at as int,
                                            dec_digits(v@.len()) + seq![';'],
                                            wires_cat(v@),
                                        );
                                        lemma_terminated_digits(
                                            s@,
                                            at as int,
                                            v@.len(),
                                            ';',
                                        );
                                        lemma_canonical_nat_at_unique(
                                            s@,
                                            at as int,
                                            v@.len(),
                                            count as nat,
                                        );
                                        assert(wire_at(
                                            s@,
                                            start as int,
                                            wires_cat(v@),
                                        ));
                                        lemma_wires_cat_split::<T>(v@, k as int);
                                        lemma_wire_split(
                                            s@,
                                            start as int,
                                            wires_cat(v@.subrange(0, k as int)),
                                            wires_cat(
                                                v@.subrange(k as int, v@.len() as int),
                                            ),
                                        );
                                        assert(wire_at(
                                            s@,
                                            start as int,
                                            wires_cat(items@),
                                        ));
                                        lemma_items_prefix_free::<T>(
                                            s@,
                                            start as int,
                                            items@,
                                            v@.subrange(0, k as int),
                                        );
                                        let rest = v@.subrange(k as int, v@.len() as int);
                                        assert(rest.len() >= 1);
                                        lemma_wires_cat_first::<T>(rest);
                                        assert(wire_at(s@, cur as int, wires_cat(rest)));
                                        assert(wire_at(s@, cur as int, rest[0].wire()
                                            + wires_cat(rest.drop_first())));
                                        lemma_wire_split(
                                            s@,
                                            cur as int,
                                            rest[0].wire(),
                                            wires_cat(rest.drop_first()),
                                        );
                                        assert(false);
                                    }
                                }
                            }
                            return None;
                        },
                    }
                    k = k + 1;
                }
                proof {
                    lemma_dec_val_of_digits(count as nat);
                    assert(s@.subrange(at as int, cur as int) =~= dec_digits(items@.len())
                        + ";"@ + wires_cat(items@));
                }
                Some((items, cur))
            },
            None => {
                proof {
                    reveal_strlit(";");
                    assert(";"@ =~= seq![';']);
                    assert forall|v: Self| !wire_at(s@, at as int, v.wire()) by {
                        if wire_at(s@, at as int, v.wire()) {
                            assert(wire_at(s@, at as int, (dec_digits(v@.len()) + seq![
                                ';',
                            ]) + wires_cat(v@))) by {
                                assert((dec_digits(v@.len()) + seq![';']) + wires_cat(v@)
                                    =~= v.wire());
                            }
                            lemma_wire_split(
                                s@,
                                at as int,
                                dec_digits(v@.len()) + seq![';'],
                                wires_cat(v@),
                            );
                            lemma_terminated_digits(s@, at as int, v@.len(), ';');
                            lemma_wires_cat_len::<T>(v@);
                            assert(v@.len() <= s@.len());
                            assert(s@.len() <= usize::MAX);
                            assert(false);
                        }
                    }
                }
                None
            },
        }
    }

    proof fn wire_prefix_free(s: Seq<char>, at: int, v1: &Self, v2: &Self) {
        reveal_strlit(";");
        assert(";"@ =~= seq![';']);
        let n1 = v1@.len();
        let n2 = v2@.len();
        assert(wire_at(s, at, (dec_digits(n1) + seq![';']) + wires_cat(v1@))) by {
            assert((dec_digits(n1) + seq![';']) + wires_cat(v1@) =~= v1.wire());
        }
        assert(wire_at(s, at, (dec_digits(n2) + seq![';']) + wires_cat(v2@))) by {
            assert((dec_digits(n2) + seq![';']) + wires_cat(v2@) =~= v2.wire());
        }
        lemma_wire_split(s, at, dec_digits(n1) + seq![';'], wires_cat(v1@));
        lemma_wire_split(s, at, dec_digits(n2) + seq![';'], wires_cat(v2@));
        lemma_terminated_digits(s, at, n1, ';');
        lemma_terminated_digits(s, at, n2, ';');
        lemma_canonical_nat_at_unique(s, at, n1, n2);
        let p = at + dec_digits(n1).len() + 1;
        lemma_items_prefix_free::<T>(s, p, v1@, v2@);
        assert(v1.wire() =~= v2.wire());
    }
}

/// No value of this type can begin here when its next part is missing.
#[verifier::rlimit(100)]
#[verifier::spinoff_prover]
proof fn lemma_command_stuck_1_at(s: Seq<char>, at: int, v: &Command)
    requires
        0 <= at <= s.len(),
        forall|x: String| !wire_at(s, at, x.wire()),
    ensures
        !wire_at(s, at, v.wire()),
{
    if wire_at(s, at, v.wire()) {
        let pa1 = v.kind.wire();
        let pa2 = pa1 + v.args.wire();
        assert(wire_at(s, at, pa2)) by {
            assert(pa2 =~= v.wire());
        }
        lemma_wire_split(s, at, pa1, v.args.wire());
        assert(wire_at(s, at, v.kind.wire()));
        assert(false);
    }
}

#[verifier::rlimit(100)]
#[verifier::spinoff_prover]
proof fn lemma_command_stuck_1(s: Seq<char>, at: int)
    requires
        0 <= at <= s.len(),
        forall|x: String| !wire_at(s, at, x.wire()),
    ensures
        forall|v: Command| !wire_at(s, at, v.wire()),
{
    assert forall|v: Command| !wire_at(s, at, v.wire()) by {
        if wire_at(s, at, v.wire()) {
            lemma_command_stuck_1_at(s, at, &v);
        }
    }
}

/// No value of this type can begin here when its next part is missing.
#[verifier::rlimit(100)]
#[verifier::spinoff_prover]
proof fn lemma_command_stuck_2_at(s: Seq<char>, at: int, d1: &String, e1: int, v: &Command)
    requires
        0 <= at <= s.len(),
        at <= e1 <= s.len(),
        s.subrange(at, e1) == d1.wire(),
        forall|x: Vec<String>| !wire_at(s, e1, x.wire()),
    ensures
        !wire_at(s, at, v.wire()),
{
    if wire_at(s, at, v.wire()) {
        let pa1 = v.kind.wire();
        let pa2 = pa1 + v.args.wire();
        assert(wire_at(s, at, pa2)) by {
            assert(pa2 =~= v.wire());
        }
        lemma_wire_split(s, at, pa1, v.args.wire());
        assert(wire_at(s, at, d1.wire()));
        <String as Wire>::wire_prefix_free(s, at, d1, &v.kind);
        assert(at + pa1.len() == e1);
        assert(wire_at(s, e1, v.args.wire()));
        assert(false);
    }
}

#[verifier::rlimit(100)]
#[verifier::spinoff_prover]
proof fn lemma_command_stuck_2(s: Seq<char>, at: int, d1: &String, e1: int)
    requires
        0 <= at <= s.len(),
        at <= e1 <= s.len(),
        s.subrange(at, e1) == d1.wire(),
        forall|x: Vec<String>| !wire_at(s, e1, x.wire()),
    ensures
        forall|v: Command| !wire_at(s, at, v.wire()),
{
    assert forall|v: Command| !wire_at(s, at, v.wire()) by {
        if wire_at(s, at, v.wire()) {
            lemma_command_stuck_2_at(s, at, d1, e1, &v);
        }
    }
}

impl Wire for Command {
    open spec fn wire(&self) -> Seq<char> {
        self.kind.wire() + self.args.wire()
    }

    open spec fn eqv(&self, other: &Self) -> bool {
        self.kind.eqv(&other.kind) && self.args.eqv(&other.args)
    }

    proof fn wire_nonempty(v: &Self) {
        <String as Wire>::wire_nonempty(&v.kind);
    }

    fn write(&self, out: &mut String) {
        self.kind.write(out);
        self.args.write(out);
        proof {
            assert(final(out)@ =~= old(out)@ + self.wire());
        }
    }

    fn read(s: &str, at: usize) -> (r: Option<(Self, usize)>) {
        let (kind, e1) = match <String as Wire>::read(s, at) {
            Some(p) => p,
            None => {
                proof {
                    lemma_command_stuck_1(s@, at as int);
                }
                return None;
            },
        };
        let (args, e2) = match <Vec<String> as Wire>::read(s, e1) {
            Some(p) => p,
            None => {
                proof {
                    lemma_command_stuck_2(s@, at as int, &kind, e1 as int);
                }
                return None;
            },
        };
        let v = Command { kind, args };
        proof {
            assert(s@.subrange(at as int, e2 as int) =~= v.wire());
        }
        Some((v, e2))
    }

    proof fn wire_prefix_free(s: Seq<char>, at: int, v1: &Self, v2: &Self) {
        let p1a = v1.kind.wire();
        let p2a = p1a + v1.args.wire();
        let p1b = v2.kind.wire();
        let p2b = p1b + v2.args.wire();
        assert(wire_at(s, at, p2a)) by {
            assert(p2a =~= v1.wire());
        }
        assert(wire_at(s, at, p2b)) by {
            assert(p2b =~= v2.wire());
        }
        lemma_wire_split(s, at, p1a, v1.args.wire());
        lemma_wire_split(s, at, p1b, v2.args.wire());
        <String as Wire>::wire_prefix_free(s, at, &v1.kind, &v2.kind);
        assert(p1a == p1b);
        <Vec<String> as Wire>::wire_prefix_free(s, at + p1a.len(), &v1.args, &v2.args);
        assert(v1.wire() =~= v2.wire());
    }
}


/// No value of this type can begin here when its next part is missing.
#[verifier::rlimit(100)]
#[verifier::spinoff_prover]
proof fn lemma_modified_object_stuck_1_at(s: Seq<char>, at: int, v: &ModifiedObject)
    requires
        0 <= at <= s.len(),
        forall|x: String| !wire_at(s, at, x.wire()),
    ensures
        !wire_at(s, at, v.wire()),
{
    if wire_at(s, at, v.wire()) {
        let pa1 = v.object_id.wire();
        let pa2 = pa1 + v.sequence_number.wire();
        assert(wire_at(s, at, pa2)) by {
            assert(pa2 =~= v.wire());
        }
        lemma_wire_split(s, at, pa1, v.sequence_number.wire());
        assert(wire_at(s, at, v.object_id.wire()));
        assert(false);
    }
}

#[verifier::rlimit(100)]
#[verifier::spinoff_prover]
proof fn lemma_modified_object_stuck_1(s: Seq<char>, at: int)
    requires
        0 <= at <= s.len(),
        forall|x: String| !wire_at(s, at, x.wire()),
    ensures
        forall|v: ModifiedObject| !wire_at(s, at, v.wire()),
{
    assert forall|v: ModifiedObject| !wire_at(s, at, v.wire()) by {
        if wire_at(s, at, v.wire()) {
            lemma_modified_object_stuck_1_at(s, at, &v);
        }
    }
}

/// No value of this type can begin here when its next part is missing.
#[verifier::rlimit(100)]
#[verifier::spinoff_prover]
proof fn lemma_modified_object_stuck_2_at(s: Seq<char>, at: int, d1: &String, e1: int, v: &ModifiedObject)
    requires
        0 <= at <= s.len(),
        at <= e1 <= s.len(),
        s.subrange(at, e1) == d1.wire(),
        forall|x: u64| !wire_at(s, e1, x.wire()),
    ensures
        !wire_at(s, at, v.wire()),
{
    if wire_at(s, at, v.wire()) {
        let pa1 = v.object_id.wire();
        let pa2 = pa1 + v.sequence_number.wire();
        assert(wire_at(s, at, pa2)) by {
            assert(pa2 =~= v.wire());
        }
        lemma_wire_split(s, at, pa1, v.sequence_number.wire());
        assert(wire_at(s, at, d1.wire()));
        <String as Wire>::wire_prefix_free(s, at, d1, &v.object_id);
        assert(at + pa1.len() == e1);
        assert(wire_at(s, e1, v.sequence_number.wire()));
        assert(false);
    }
}

#[verifier::rlimit(100)]
#[verifier::spinoff_prover]
proof fn lemma_modified_object_stuck_2(s: Seq<char>, at: int, d1: &String, e1: int)
    requires
        0 <= at <= s.len(),
        at <= e1 <= s.len(),
        s.subrange(at, e1) == d1.wire(),
        forall|x: u64| !wire_at(s, e1, x.wire()),
    ensures
        forall|v: ModifiedObject| !wire_at(s, at, v.wire()),
{
    assert forall|v: ModifiedObject| !wire_at(s, at, v.wire()) by {
        if wire_at(s, at, v.wire()) {
            lemma_modified_object_stuck_2_at(s, at, d1, e1, &v);
        }
    }
}

impl Wire for ModifiedObject {
    open spec fn wire(&self) -> Seq<char> {
        self.object_id.wire() + self.sequence_number.wire()
    }

    open spec fn eqv(&self, other: &Self) -> bool {
        self.object_id.eqv(&other.object_id) && self.sequence_number == other.sequence_number
    }

    proof fn wire_nonempty(v: &Self) {
        <String as Wire>::wire_nonempty(&v.object_id);
    }

    fn write(&self, out: &mut String) {
        self.object_id.write(out);
        self.sequence_number.write(out);
        proof {
            assert(final(out)@ =~= old(out)@ + self.wire());
        }
    }

    fn read(s: &str, at: usize) -> (r: Option<(Self, usize)>) {
        let (object_id, e1) = match <String as Wire>::read(s, at) {
            Some(p) => p,
            None => {
                proof {
                    lemma_modified_object_stuck_1(s@, at as int);
                }
                return None;
            },
        };
        let (sequence_number, e2) = match <u64 as Wire>::read(s, e1) {
            Some(p) => p,
            None => {
                proof {
                    lemma_modified_object_stuck_2(s@, at as int, &object_id, e1 as int);
                }
                return None;
            },
        };
        let v = ModifiedObject { object_id, sequence_number };
        proof {
            assert(s@.subrange(at as int, e2 as int) =~= v.wire());
        }
        Some((v, e2))
    }

    proof fn wire_prefix_free(s: Seq<char>, at: int, v1: &Self, v2: &Self) {
        let p1a = v1.object_id.wire();
        let p2a = p1a + v1.sequence_number.wire();
        let p1b = v2.object_id.wire();
        let p2b = p1b + v2.sequence_number.wire();
        assert(wire_at(s, at, p2a)) by {
            assert(p2a =~= v1.wire());
        }
        assert(wire_at(s, at, p2b)) by {
            assert(p2b =~= v2.wire());
        }
        lemma_wire_split(s, at, p1a, v1.sequence_number.wire());
        lemma_wire_split(s, at, p1b, v2.sequence_number.wire());
        <String as Wire>::wire_prefix_free(s, at, &v1.object_id, &v2.object_id);
        assert(p1a == p1b);
        <u64 as Wire>::wire_prefix_free(s, at + p1a.len(), &v1.sequence_number, &v2.sequence_number);
        assert(v1.wire() =~= v2.wire());
    }
}


/// No value of this type can begin here when its next part is missing.
#[verifier::rlimit(100)]
#[verifier::spinoff_prover]
proof fn lemma_deleted_object_stuck_1_at(s: Seq<char>, at: int, v: &DeletedObject)
    requires
        0 <= at <= s.len(),
        forall|x: String| !wire_at(s, at, x.wire()),
    ensures
        !wire_at(s, at, v.wire()),
{
    if wire_at(s, at, v.wire()) {
        let pa1 = v.object_id.wire();
        let pa2 = pa1 + v.version.wire();
        assert(wire_at(s, at, pa2)) by {
            assert(pa2 =~= v.wire());
        }
        lemma_wire_split(s, at, pa1, v.version.wire());
        assert(wire_at(s, at, v.object_id.wire()));
        assert(false);
    }
}

#[verifier::rlimit(100)]
#[verifier::spinoff_prover]
proof fn lemma_deleted_object_stuck_1(s: Seq<char>, at: int)
    requires
        0 <= at <= s.len(),
        forall|x: String| !wire_at(s, at, x.wire()),
    ensures
        forall|v: DeletedObject| !wire_at(s, at, v.wire()),
{
    assert forall|v: DeletedObject| !wire_at(s, at, v.wire()) by {
        if wire_at(s, at, v.wire()) {
            lemma_deleted_object_stuck_1_at(s, at, &v);
        }
    }
}

/// No value of this type can begin here when its next part is missing.
#[verifier::rlimit(100)]
#[verifier::spinoff_prover]
proof fn lemma_deleted_object_stuck_2_at(s: Seq<char>, at: int, d1: &String, e1: int, v: &DeletedObject)
    requires
        0 <= at <= s.len(),
        at <= e1 <= s.len(),
        s.subrange(at, e1) == d1.wire(),
        forall|x: u64| !wire_at(s, e1, x.wire()),
    ensures
        !wire_at(s, at, v.wire()),
{
    if wire_at(s, at, v.wire()) {
        let pa1 = v.object_id.wire();
        let pa2 = pa1 + v.version.wire();
        assert(wire_at(s, at, pa2)) by {
            assert(pa2 =~= v.wire());
        }
        lemma_wire_split(s, at, pa1, v.version.wire());
        assert(wire_at(s, at, d1.wire()));
        <String as Wire>::wire_prefix_free(s, at, d1, &v.object_id);
        assert(at + pa1.len() == e1);
        assert(wire_at(s, e1, v.version.wire()));
        assert(false);
    }
}

#[verifier::rlimit(100)]
#[verifier::spinoff_prover]
proof fn lemma_deleted_object_stuck_2(s: Seq<char>, at: int, d1: &String, e1: int)
    requires
        0 <= at <= s.len(),
        at <= e1 <= s.len(),
        s.subrange(at, e1) == d1.wire(),
        forall|x: u64| !wire_at(s, e1, x.wire()),
    ensures
        forall|v: DeletedObject| !wire_at(s, at, v.wire()),
{
    assert forall|v: DeletedObject| !wire_at(s, at, v.wire()) by {
        if wire_at(s, at, v.wire()) {
            lemma_deleted_object_stuck_2_at(s, at, d1, e1, &v);
        }
    }
}

impl Wire for DeletedObject {
    open spec fn wire(&self) -> Seq<char> {
        self.object_id.wire() + self.version.wire()
    }

    open spec fn eqv(&self, other: &Self) -> bool {
        self.object_id.eqv(&other.object_id) && self.version == other.version
    }

    proof fn wire_nonempty(v: &Self) {
        <String as Wire>::wire_nonempty(&v.object_id);
    }

    fn write(&self, out: &mut String) {
        self.object_id.write(out);
        self.version.write(out);
        proof {
            assert(final(out)@ =~= old(out)@ + self.wire());
        }
    }

    fn read(s: &str, at: usize) -> (r: Option<(Self, usize)>) {
        let (object_id, e1) = match <String as Wire>::read(s, at) {
            Some(p) => p,
            None => {
                proof {
                    lemma_deleted_object_stuck_1(s@, at as int);
                }
                return None;
            },
        };
        let (version, e2) = match <u64 as Wire>::read(s, e1) {
            Some(p) => p,
            None => {
                proof {
                    lemma_deleted_object_stuck_2(s@, at as int, &object_id, e1 as int);
                }
                return None;
            },
        };
        let v = DeletedObject { object_id, version };
        proof {
            assert(s@.subrange(at as int, e2 as int) =~= v.wire());
        }
        Some((v, e2))
    }

    proof fn wire_prefix_free(s: Seq<char>, at: int, v1: &Self, v2: &Self) {
        let p1a = v1.object_id.wire();
        let p2a = p1a + v1.version.wire();
        let p1b = v2.object_id.wire();
        let p2b = p1b + v2.version.wire();
        assert(wire_at(s, at, p2a)) by {
            assert(p2a =~= v1.wire());
        }
        assert(wire_at(s, at, p2b)) by {
            assert(p2b =~= v2.wire());
        }
        lemma_wire_split(s, at, p1a, v1.version.wire());
        lemma_wire_split(s, at, p1b, v2.version.wire());
        <String as Wire>::wire_prefix_free(s, at, &v1.object_id, &v2.object_id);
        assert(p1a == p1b);
        <u64 as Wire>::wire_prefix_free(s, at + p1a.len(), &v1.version, &v2.version);
        assert(v1.wire() =~= v2.wire());
    }
}


/// No value of this type can begin here when its next part is missing.
#[verifier::rlimit(100)]
#[verifier::spinoff_prover]
proof fn lemma_shared_object_mutation_stuck_1_at(s: Seq<char>, at: int, v: &SharedObjectMutation)
    requires
        0 <= at <= s.len(),
        forall|x: String| !wire_at(s, at, x.wire()),
    ensures
        !wire_at(s, at, v.wire()),
{
    if wire_at(s, at, v.wire()) {
        let pa1 = v.object_id.wire();
        let pa2 = pa1 + v.version.wire();
        assert(wire_at(s, at, pa2)) by {
            assert(pa2 =~= v.wire());
        }
        lemma_wire_split(s, at, pa1, v.version.wire());
        assert(wire_at(s, at, v.object_id.wire()));
        assert(false);
    }
}

#[verifier::rlimit(100)]
#[verifier::spinoff_prover]
proof fn lemma_shared_object_mutation_stuck_1(s: Seq<char>, at: int)
    requires
        0 <= at <= s.len(),
        forall|x: String| !wire_at(s, at, x.wire()),
    ensures
        forall|v: SharedObjectMutation| !wire_at(s, at, v.wire()),
{
    assert forall|v: SharedObjectMutation| !wire_at(s, at, v.wire()) by {
        if wire_at(s, at, v.wire()) {
            lemma_shared_object_mutation_stuck_1_at(s, at, &v);
        }
    }
}

/// No value of this type can begin here when its next part is missing.
#[verifier::rlimit(100)]
#[verifier::spinoff_prover]
proof fn lemma_shared_object_mutation_stuck_2_at(s: Seq<char>, at: int, d1: &String, e1: int, v: &SharedObjectMutation)
    requires
        0 <= at <= s.len(),
        at <= e1 <= s.len(),
        s.subrange(at, e1) == d1.wire(),
        forall|x: u64| !wire_at(s, e1, x.wire()),
    ensures
        !wire_at(s, at, v.wire()),
{
    if wire_at(s, at, v.wire()) {
        let pa1 = v.object_id.wire();
        let pa2 = pa1 + v.version.wire();
        assert(wire_at(s, at, pa2)) by {
            assert(pa2 =~= v.wire());
        }
        lemma_wire_split(s, at, pa1, v.version.wire());
        assert(wire_at(s, at, d1.wire()));
        <String as Wire>::wire_prefix_free(s, at, d1, &v.object_id);
        assert(at + pa1.len() == e1);
        assert(wire_at(s, e1, v.version.wire()));
        assert(false);
    }
}

#[verifier::rlimit(100)]
#[verifier::spinoff_prover]
proof fn lemma_shared_object_mutation_stuck_2(s: Seq<char>, at: int, d1: &String, e1: int)
    requires
        0 <= at <= s.len(),
        at <= e1 <= s.len(),
        s.subrange(at, e1) == d1.wire(),
        forall|x: u64| !wire_at(s, e1, x.wire()),
    ensures
        forall|v: SharedObjectMutation| !wire_at(s, at, v.wire()),
{
    assert forall|v: SharedObjectMutation| !wire_at(s, at, v.wire()) by {
        if wire_at(s, at, v.wire()) {
            lemma_shared_object_mutation_stuck_2_at(s, at, d1, e1, &v);
        }
    }
}

impl Wire for SharedObjectMutation {
    open spec fn wire(&self) -> Seq<char> {
        self.object_id.wire() + self.version.wire()
    }

    open spec fn eqv(&self, other: &Self) -> bool {
        self.object_id.eqv(&other.object_id) && self.version == other.version
    }

    proof fn wire_nonempty(v: &Self) {
        <String as Wire>::wire_nonempty(&v.object_id);
    }

    fn write(&self, out: &mut String) {
        self.object_id.write(out);
        self.version.write(out);
        proof {
            assert(final(out)@ =~= old(out)@ + self.wire());
        }
    }

    fn read(s: &str, at: usize) -> (r: Option<(Self, usize)>) {
        let (object_id, e1) = match <String as Wire>::read(s, at) {
            Some(p) => p,
            None => {
                proof {
                    lemma_shared_object_mutation_stuck_1(s@, at as int);
                }
                return None;
            },
        };
        let (version, e2) = match <u64 as Wire>::read(s, e1) {
            Some(p) => p,
            None => {
                proof {
                    lemma_shared_object_mutation_stuck_2(s@, at as int, &object_id, e1 as int);
                }
                return None;
            },
        };
        let v = SharedObjectMutation { object_id, version };
        proof {
            assert(s@.subrange(at as int, e2 as int) =~= v.wire());
        }
        Some((v, e2))
    }

    proof fn wire_prefix_free(s: Seq<char>, at: int, v1: &Self, v2: &Self) {
        let p1a = v1.object_id.wire();
        let p2a = p1a + v1.version.wire();
        let p1b = v2.object_id.wire();
        let p2b = p1b + v2.version.wire();
        assert(wire_at(s, at, p2a)) by {
            assert(p2a =~= v1.wire());
        }
        assert(wire_at(s, at, p2b)) by {
            assert(p2b =~= v2.wire());
        }
        lemma_wire_split(s, at, p1a, v1.version.wire());
        lemma_wire_split(s, at, p1b, v2.version.wire());
        <String as Wire>::wire_prefix_free(s, at, &v1.object_id, &v2.object_id);
        assert(p1a == p1b);
        <u64 as Wire>::wire_prefix_free(s, at + p1a.len(), &v1.version, &v2.version);
        assert(v1.wire() =~= v2.wire());
    }
}


/// No value of this type can begin here when its next part is missing.
#[verifier::rlimit(100)]
#[verifier::spinoff_prover]
proof fn lemma_created_object_stuck_1_at(s: Seq<char>, at: int, v: &CreatedObject)
    requires
        0 <= at <= s.len(),
        forall|x: String| !wire_at(s, at, x.wire()),
    ensures
        !wire_at(s, at, v.wire()),
{
    if wire_at(s, at, v.wire()) {
        let pa1 = v.object_id.wire();
        let pa2 = pa1 + v.version.wire();
        let pa3 = pa2 + v.owner.wire();
        assert(wire_at(s, at, pa3)) by {
            assert(pa3 =~= v.wire());
        }
        lemma_wire_split(s, at, pa2, v.owner.wire());
        lemma_wire_split(s, at, pa1, v.version.wire());
        assert(wire_at(s, at, v.object_id.wire()));
        assert(false);
    }
}

#[verifier::rlimit(100)]
#[verifier::spinoff_prover]
proof fn lemma_created_object_stuck_1(s: Seq<char>, at: int)
    requires
        0 <= at <= s.len(),
        forall|x: String| !wire_at(s, at, x.wire()),
    ensures
        forall|v: CreatedObject| !wire_at(s, at, v.wire()),
{
    assert forall|v: CreatedObject| !wire_at(s, at, v.wire()) by {
        if wire_at(s, at, v.wire()) {
            lemma_created_object_stuck_1_at(s, at, &v);
        }
    }
}

/// No value of this type can begin here when its next part is missing.
#[verifier::rlimit(100)]
#[verifier::spinoff_prover]
proof fn lemma_created_object_stuck_2_at(s: Seq<char>, at: int, d1: &String, e1: int, v: &CreatedObject)
    requires
        0 <= at <= s.len(),
        at <= e1 <= s.len(),
        s.subrange(at, e1) == d1.wire(),
        forall|x: u64| !wire_at(s, e1, x.wire()),
    ensures
        !wire_at(s, at, v.wire()),
{
    if wire_at(s, at, v.wire()) {
        let pa1 = v.object_id.wire();
        let pa2 = pa1 + v.version.wire();
        let pa3 = pa2 + v.owner.wire();
        assert(wire_at(s, at, pa3)) by {
            assert(pa3 =~= v.wire());
        }
        lemma_wire_split(s, at, pa2, v.owner.wire());
        lemma_wire_split(s, at, pa1, v.version.wire());
        assert(wire_at(s, at, d1.wire()));
        <String as Wire>::wire_prefix_free(s, at, d1, &v.object_id);
        assert(at + pa1.len() == e1);
        assert(wire_at(s, e1, v.version.wire()));
        assert(false);
    }
}

#[verifier::rlimit(100)]
#[verifier::spinoff_prover]
proof fn lemma_created_object_stuck_2(s: Seq<char>, at: int, d1: &String, e1: int)
    requires
        0 <= at <= s.len(),
        at <= e1 <= s.len(),
        s.subrange(at, e1) == d1.wire(),
        forall|x: u64| !wire_at(s, e1, x.wire()),
    ensures
        forall|v: CreatedObject| !wire_at(s, at, v.wire()),
{
    assert forall|v: CreatedObject| !wire_at(s, at, v.wire()) by {
        if wire_at(s, at, v.wire()) {
            lemma_created_object_stuck_2_at(s, at, d1, e1, &v);
        }
    }
}

/// No value of this type can begin here when its next part is missing.
#[verifier::rlimit(100)]
#[verifier::spinoff_prover]
proof fn lemma_created_object_stuck_3_at(s: Seq<char>, at: int, d1: &String, d2: &u64, e1: int, e2: int, v: &CreatedObject)
    requires
        0 <= at <= s.len(),
        at <= e1 <= s.len(),
        s.subrange(at, e1) == d1.wire(),
        e1 <= e2 <= s.len(),
        s.subrange(e1, e2) == d2.wire(),
        forall|x: Owner| !wire_at(s, e2, x.wire()),
    ensures
        !wire_at(s, at, v.wire()),
{
    if wire_at(s, at, v.wire()) {
        let pa1 = v.object_id.wire();
        let pa2 = pa1 + v.version.wire();
        let pa3 = pa2 + v.owner.wire();
        assert(wire_at(s, at, pa3)) by {
            assert(pa3 =~= v.wire());
        }
        lemma_wire_split(s, at, pa2, v.owner.wire());
        lemma_wire_split(s, at, pa1, v.version.wire());
        assert(wire_at(s, at, d1.wire()));
        <String as Wire>::wire_prefix_free(s, at, d1, &v.object_id);
        assert(at + pa1.len() == e1);
        assert(wire_at(s, e1, d2.wire()));
        <u64 as Wire>::wire_prefix_free(s, e1, d2, &v.version);
        assert(at + pa2.len() == e2);
        assert(wire_at(s, e2, v.owner.wire()));
        assert(false);
    }
}

#[verifier::rlimit(100)]
#[verifier::spinoff_prover]
proof fn lemma_created_object_stuck_3(s: Seq<char>, at: int, d1: &String, d2: &u64, e1: int, e2: int)
    requires
        0 <= at <= s.len(),
        at <= e1 <= s.len(),
        s.subrange(at, e1) == d1.wire(),
        e1 <= e2 <= s.len(),
        s.subrange(e1, e2) == d2.wire(),
        forall|x: Owner| !wire_at(s, e2, x.wire()),
    ensures
        forall|v: CreatedObject| !wire_at(s, at, v.wire()),
{
    assert forall|v: CreatedObject| !wire_at(s, at, v.wire()) by {
        if wire_at(s, at, v.wire()) {
            lemma_created_object_stuck_3_at(s, at, d1, d2, e1, e2, &v);
        }
    }
}

impl Wire for CreatedObject {
    open spec fn wire(&self) -> Seq<char> {
        self.object_id.wire() + self.version.wire() + self.owner.wire()
    }

    open spec fn eqv(&self, other: &Self) -> bool {
        self.object_id.eqv(&other.object_id) && self.version == other.version && self.owner.eqv(&other.owner)
    }

    proof fn wire_nonempty(v: &Self) {
        <String as Wire>::wire_nonempty(&v.object_id);
    }

    fn write(&self, out: &mut String) {
        self.object_id.write(out);
        self.version.write(out);
        self.owner.write(out);
        proof {
            assert(final(out)@ =~= old(out)@ + self.wire());
        }
    }

    fn read(s: &str, at: usize) -> (r: Option<(Self, usize)>) {
        let (object_id, e1) = match <String as Wire>::read(s, at) {
            Some(p) => p,
            None => {
                proof {
                    lemma_created_object_stuck_1(s@, at as int);
                }
                return None;
            },
        };
        let (version, e2) = match <u64 as Wire>::read(s, e1) {
            Some(p) => p,
            None => {
                proof {
                    lemma_created_object_stuck_2(s@, at as int, &object_id, e1 as int);
                }
                return None;
            },
        };
        let (owner, e3) = match <Owner as Wire>::read(s, e2) {
            Some(p) => p,
            None => {
                proof {
                    lemma_created_object_stuck_3(s@, at as int, &object_id, &version, e1 as int, e2 as int);
                }
                return None;
            },
        };
        let v = CreatedObject { object_id, version, owner };
        proof {
            assert(s@.subrange(at as int, e3 as int) =~= v.wire());
        }
        Some((v, e3))
    }

    proof fn wire_prefix_free(s: Seq<char>, at: int, v1: &Self, v2: &Self) {
        let p1a = v1.object_id.wire();
        let p2a = p1a + v1.version.wire();
        let p3a = p2a + v1.owner.wire();
        let p1b = v2.object_id.wire();
        let p2b = p1b + v2.version.wire();
        let p3b = p2b + v2.owner.wire();
        assert(wire_at(s, at, p3a)) by {
            assert(p3a =~= v1.wire());
        }
        assert(wire_at(s, at, p3b)) by {
            assert(p3b =~= v2.wire());
        }
        lemma_wire_split(s, at, p2a, v1.owner.wire());
        lemma_wire_split(s, at, p2b, v2.owner.wire());
        lemma_wire_split(s, at, p1a, v1.version.wire());
        lemma_wire_split(s, at, p1b, v2.version.wire());
        <String as Wire>::wire_prefix_free(s, at, &v1.object_id, &v2.object_id);
        assert(p1a == p1b);
        <u64 as Wire>::wire_prefix_free(s, at + p1a.len(), &v1.version, &v2.version);
        assert(p2a == p2b);
        <Owner as Wire>::wire_prefix_free(s, at + p2a.len(), &v1.owner, &v2.owner);
        assert(v1.wire() =~= v2.wire());
    }
}


/// No value of this type can begin here when its next part is missing.
#[verifier::rlimit(100)]
#[verifier::spinoff_prover]
proof fn lemma_transaction_data_stuck_1_at(s: Seq<char>, at: int, v: &TransactionData)
    requires
        0 <= at <= s.len(),
        forall|x: Vec<TransactionInput>| !wire_at(s, at, x.wire()),
    ensures
        !wire_at(s, at, v.wire()),
{
    if wire_at(s, at, v.wire()) {
        let pa1 = v.inputs.wire();
        let pa2 = pa1 + v.commands.wire();
        assert(wire_at(s, at, pa2)) by {
            assert(pa2 =~= v.wire());
        }
        lemma_wire_split(s, at, pa1, v.commands.wire());
        assert(wire_at(s, at, v.inputs.wire()));
        assert(false);
    }
}

#[verifier::rlimit(100)]
#[verifier::spinoff_prover]
proof fn lemma_transaction_data_stuck_1(s: Seq<char>, at: int)
    requires
        0 <= at <= s.len(),
        forall|x: Vec<TransactionInput>| !wire_at(s, at, x.wire()),
    ensures
        forall|v: TransactionData| !wire_at(s, at, v.wire()),
{
    assert forall|v: TransactionData| !wire_at(s, at, v.wire()) by {
        if wire_at(s, at, v.wire()) {
            lemma_transaction_data_stuck_1_at(s, at, &v);
        }
    }
}

/// No value of this type can begin here when its next part is missing.
#[verifier::rlimit(100)]
#[verifier::spinoff_prover]
proof fn lemma_transaction_data_stuck_2_at(s: Seq<char>, at: int, d1: &Vec<TransactionInput>, e1: int, v: &TransactionData)
    requires
        0 <= at <= s.len(),
        at <= e1 <= s.len(),
        s.subrange(at, e1) == d1.wire(),
        forall|x: Vec<Command>| !wire_at(s, e1, x.wire()),
    ensures
        !wire_at(s, at, v.wire()),
{
    if wire_at(s, at, v.wire()) {
        let pa1 = v.inputs.wire();
        let pa2 = pa1 + v.commands.wire();
        assert(wire_at(s, at, pa2)) by {
            assert(pa2 =~= v.wire());
        }
        lemma_wire_split(s, at, pa1, v.commands.wire());
        assert(wire_at(s, at, d1.wire()));
        <Vec<TransactionInput> as Wire>::wire_prefix_free(s, at, d1, &v.inputs);
        assert(at + pa1.len() == e1);
        assert(wire_at(s, e1, v.commands.wire()));
        assert(false);
    }
}

#[verifier::rlimit(100)]
#[verifier::spinoff_prover]
proof fn lemma_transaction_data_stuck_2(s: Seq<char>, at: int, d1: &Vec<TransactionInput>, e1: int)
    requires
        0 <= at <= s.len(),
        at <= e1 <= s.len(),
        s.subrange(at, e1) == d1.wire(),
        forall|x: Vec<Command>| !wire_at(s, e1, x.wire()),
    ensures
        forall|v: TransactionData| !wire_at(s, at, v.wire()),
{
    assert forall|v: TransactionData| !wire_at(s, at, v.wire()) by {
        if wire_at(s, at, v.wire()) {
            lemma_transaction_data_stuck_2_at(s, at, d1, e1, &v);
        }
    }
}

impl Wire for TransactionData {
    open spec fn wire(&self) -> Seq<char> {
        self.inputs.wire() + self.commands.wire()
    }

    open spec fn eqv(&self, other: &Self) -> bool {
        self.inputs.eqv(&other.inputs) && self.commands.eqv(&other.commands)
    }

    proof fn wire_nonempty(v: &Self) {
        <Vec<TransactionInput> as Wire>::wire_nonempty(&v.inputs);
    }

    fn write(&self, out: &mut String) {
        self.inputs.write(out);
        self.commands.write(out);
        proof {
            assert(final(out)@ =~= old(out)@ + self.wire());
        }
    }

    fn read(s: &str, at: usize) -> (r: Option<(Self, usize)>) {
        let (inputs, e1) = match <Vec<TransactionInput> as Wire>::read(s, at) {
            Some(p) => p,
            None => {
                proof {
                    lemma_transaction_data_stuck_1(s@, at as int);
                }
                return None;
            },
        };
        let (commands, e2) = match <Vec<Command> as Wire>::read(s, e1) {
            Some(p) => p,
            None => {
                proof {
                    lemma_transaction_data_stuck_2(s@, at as int, &inputs, e1 as int);
                }
                return None;
            },
        };
        let v = TransactionData { inputs, commands };
        proof {
            assert(s@.subrange(at as int, e2 as int) =~= v.wire());
        }
        Some((v, e2))
    }

    proof fn wire_prefix_free(s: Seq<char>, at: int, v1: &Self, v2: &Self) {
        let p1a = v1.inputs.wire();
        let p2a = p1a + v1.commands.wire();
        let p1b = v2.inputs.wire();
        let p2b = p1b + v2.commands.wire();
        assert(wire_at(s, at, p2a)) by {
            assert(p2a =~= v1.wire());
        }
        assert(wire_at(s, at, p2b)) by {
            assert(p2b =~= v2.wire());
        }
        lemma_wire_split(s, at, p1a, v1.commands.wire());
        lemma_wire_split(s, at, p1b, v2.commands.wire());
        <Vec<TransactionInput> as Wire>::wire_prefix_free(s, at, &v1.inputs, &v2.inputs);
        assert(p1a == p1b);
        <Vec<Command> as Wire>::wire_prefix_free(s, at + p1a.len(), &v1.commands, &v2.commands);
        assert(v1.wire() =~= v2.wire());
    }
}


/// No value of this type can begin here when its next part is missing.
#[verifier::rlimit(100)]
#[verifier::spinoff_prover]
proof fn lemma_checkpoint_contents_stuck_1_at(s: Seq<char>, at: int, v: &CheckpointContents)
    requires
        0 <= at <= s.len(),
        forall|x: Vec<String>| !wire_at(s, at, x.wire()),
    ensures
        !wire_at(s, at, v.wire()),
{
    if wire_at(s, at, v.wire()) {
        let pa1 = v.transactions.wire();
        let pa2 = pa1 + v.user_signatures.wire();
        assert(wire_at(s, at, pa2)) by {
            assert(pa2 =~= v.wire());
        }
        lemma_wire_split(s, at, pa1, v.user_signatures.wire());
        assert(wire_at(s, at, v.transactions.wire()));
        assert(false);
    }
}

#[verifier::rlimit(100)]
#[verifier::spinoff_prover]
proof fn lemma_checkpoint_contents_stuck_1(s: Seq<char>, at: int)
    requires
        0 <= at <= s.len(),
        forall|x: Vec<String>| !wire_at(s, at, x.wire()),
    ensures
        forall|v: CheckpointContents| !wire_at(s, at, v.wire()),
{
    assert forall|v: CheckpointContents| !wire_at(s, at, v.wire()) by {
        if wire_at(s, at, v.wire()) {
            lemma_checkpoint_contents_stuck_1_at(s, at, &v);
        }
    }
}

/// No value of this type can begin here when its next part is missing.
#[verifier::rlimit(100)]
#[verifier::spinoff_prover]
proof fn lemma_checkpoint_contents_stuck_2_at(s: Seq<char>, at: int, d1: &Vec<String>, e1: int, v: &CheckpointContents)
    requires
        0 <= at <= s.len(),
        at <= e1 <= s.len(),
        s.subrange(at, e1) == d1.wire(),
        forall|x: Vec<String>| !wire_at(s, e1, x.wire()),
    ensures
        !wire_at(s, at, v.wire()),
{
    if wire_at(s, at, v.wire()) {
        let pa1 = v.transactions.wire();
        let pa2 = pa1 + v.user_signatures.wire();
        assert(wire_at(s, at, pa2)) by {
            assert(pa2 =~= v.wire());
        }
        lemma_wire_split(s, at, pa1, v.user_signatures.wire());
        assert(wire_at(s, at, d1.wire()));
        <Vec<String> as Wire>::wire_prefix_free(s, at, d1, &v.transactions);
        assert(at + pa1.len() == e1);
        assert(wire_at(s, e1, v.user_signatures.wire()));
        assert(false);
    }
}

#[verifier::rlimit(100)]
#[verifier::spinoff_prover]
proof fn lemma_checkpoint_contents_stuck_2(s: Seq<char>, at: int, d1: &Vec<String>, e1: int)
    requires
        0 <= at <= s.len(),
        at <= e1 <= s.len(),
        s.subrange(at, e1) == d1.wire(),
        forall|x: Vec<String>| !wire_at(s, e1, x.wire()),
    ensures
        forall|v: CheckpointContents| !wire_at(s, at, v.wire()),
{
    assert forall|v: CheckpointContents| !wire_at(s, at, v.wire()) by {
        if wire_at(s, at, v.wire()) {
            lemma_checkpoint_contents_stuck_2_at(s, at, d1, e1, &v);
        }
    }
}

impl Wire for CheckpointContents {
    open spec fn wire(&self) -> Seq<char> {
        self.transactions.wire() + self.user_signatures.wire()
    }

    open spec fn eqv(&self, other: &Self) -> bool {
        self.transactions.eqv(&other.transactions) && self.user_signatures.eqv(&other.user_signatures)
    }

    proof fn wire_nonempty(v: &Self) {
        <Vec<String> as Wire>::wire_nonempty(&v.transactions);
    }

    fn write(&self, out: &mut String) {
        self.transactions.write(out);
        self.user_signatures.write(out);
        proof {
            assert(final(out)@ =~= old(out)@ + self.wire());
        }
    }

    fn read(s: &str, at: usize) -> (r: Option<(Self, usize)>) {
        let (transactions, e1) = match <Vec<String> as Wire>::read(s, at) {
            Some(p) => p,
            None => {
                proof {
                    lemma_checkpoint_contents_stuck_1(s@, at as int);
                }
                return None;
            },
        };
        let (user_signatures, e2) = match <Vec<String> as Wire>::read(s, e1) {
            Some(p) => p,
            None => {
                proof {
                    lemma_checkpoint_contents_stuck_2(s@, at as int, &transactions, e1 as int);
                }
                return None;
            },
        };
        let v = CheckpointContents { transactions, user_signatures };
        proof {
            assert(s@.subrange(at as int, e2 as int) =~= v.wire());
        }
        Some((v, e2))
    }

    proof fn wire_prefix_free(s: Seq<char>, at: int, v1: &Self, v2: &Self) {
        let p1a = v1.transactions.wire();
        let p2a = p1a + v1.user_signatures.wire();
        let p1b = v2.transactions.wire();
        let p2b = p1b + v2.user_signatures.wire();
        assert(wire_at(s, at, p2a)) by {
            assert(p2a =~= v1.wire());
        }
        assert(wire_at(s, at, p2b)) by {
            assert(p2b =~= v2.wire());
        }
        lemma_wire_split(s, at, p1a, v1.user_signatures.wire());
        lemma_wire_split(s, at, p1b, v2.user_signatures.wire());
        <Vec<String> as Wire>::wire_prefix_free(s, at, &v1.transactions, &v2.transactions);
        assert(p1a == p1b);
        <Vec<String> as Wire>::wire_prefix_free(s, at + p1a.len(), &v1.user_signatures, &v2.user_signatures);
        assert(v1.wire() =~= v2.wire());
    }
}


/// No value of this type can begin here when its next part is missing.
#[verifier::rlimit(100)]
#[verifier::spinoff_prover]
proof fn lemma_gas_effects_stuck_1_at(s: Seq<char>, at: int, v: &GasEffects)
    requires
        0 <= at <= s.len(),
        forall|x: String| !wire_at(s, at, x.wire()),
    ensures
        !wire_at(s, at, v.wire()),
{
    if wire_at(s, at, v.wire()) {
        let pa1 = v.gas_object.wire();
        let pa2 = pa1 + v.gas_cost.wire();
        let pa3 = pa2 + v.computation_cost.wire();
        let pa4 = pa3 + v.storage_cost.wire();
        let pa5 = pa4 + v.storage_rebate.wire();
        let pa6 = pa5 + v.non_refundable_storage_fee.wire();
        assert(wire_at(s, at, pa6)) by {
            assert(pa6 =~= v.wire());
        }
        lemma_wire_split(s, at, pa5, v.non_refundable_storage_fee.wire());
        lemma_wire_split(s, at, pa4, v.storage_rebate.wire());
        lemma_wire_split(s, at, pa3, v.storage_cost.wire());
        lemma_wire_split(s, at, pa2, v.computation_cost.wire());
        lemma_wire_split(s, at, pa1, v.gas_cost.wire());
        assert(wire_at(s, at, v.gas_object.wire()));
        assert(false);
    }
}

#[verifier::rlimit(100)]
#[verifier::spinoff_prover]
proof fn lemma_gas_effects_stuck_1(s: Seq<char>, at: int)
    requires
        0 <= at <= s.len(),
        forall|x: String| !wire_at(s, at, x.wire()),
    ensures
        forall|v: GasEffects| !wire_at(s, at, v.wire()),
{
    assert forall|v: GasEffects| !wire_at(s, at, v.wire()) by {
        if wire_at(s, at, v.wire()) {
            lemma_gas_effects_stuck_1_at(s, at, &v);
        }
    }
}

/// No value of this type can begin here when its next part is missing.
#[verifier::rlimit(100)]
#[verifier::spinoff_prover]
proof fn lemma_gas_effects_stuck_2_at(s: Seq<char>, at: int, d1: &String, e1: int, v: &GasEffects)
    requires
        0 <= at <= s.len(),
        at <= e1 <= s.len(),
        s.subrange(at, e1) == d1.wire(),
        forall|x: u64| !wire_at(s, e1, x.wire()),
    ensures
        !wire_at(s, at, v.wire()),
{
    if wire_at(s, at, v.wire()) {
        let pa1 = v.gas_object.wire();
        let pa2 = pa1 + v.gas_cost.wire();
        let pa3 = pa2 + v.computation_cost.wire();
        let pa4 = pa3 + v.storage_cost.wire();
        let pa5 = pa4 + v.storage_rebate.wire();
        let pa6 = pa5 + v.non_refundable_storage_fee.wire();
        assert(wire_at(s, at, pa6)) by {
            assert(pa6 =~= v.wire());
        }
        lemma_wire_split(s, at, pa5, v.non_refundable_storage_fee.wire());
        lemma_wire_split(s, at, pa4, v.storage_rebate.wire());
        lemma_wire_split(s, at, pa3, v.storage_cost.wire());
        lemma_wire_split(s, at, pa2, v.computation_cost.wire());
        lemma_wire_split(s, at, pa1, v.gas_cost.wire());
        assert(wire_at(s, at, d1.wire()));
        <String as Wire>::wire_prefix_free(s, at, d1, &v.gas_object);
        assert(at + pa1.len() == e1);
        assert(wire_at(s, e1, v.gas_cost.wire()));
        assert(false);
    }
}

#[verifier::rlimit(100)]
#[verifier::spinoff_prover]
proof fn lemma_gas_effects_stuck_2(s: Seq<char>, at: int, d1: &String, e1: int)
    requires
        0 <= at <= s.len(),
        at <= e1 <= s.len(),
        s.subrange(at, e1) == d1.wire(),
        forall|x: u64| !wire_at(s, e1, x.wire()),
    ensures
        forall|v: GasEffects| !wire_at(s, at, v.wire()),
{
    assert forall|v: GasEffects| !wire_at(s, at, v.wire()) by {
        if wire_at(s, at, v.wire()) {
            lemma_gas_effects_stuck_2_at(s, at, d1, e1, &v);
        }
    }
}

/// No value of this type can begin here when its next part is missing.
#[verifier::rlimit(100)]
#[verifier::spinoff_prover]
proof fn lemma_gas_effects_stuck_3_at(s: Seq<char>, at: int, d1: &String, d2: &u64, e1: int, e2: int, v: &GasEffects)
    requires
        0 <= at <= s.len(),
        at <= e1 <= s.len(),
        s.subrange(at, e1) == d1.wire(),
        e1 <= e2 <= s.len(),
        s.subrange(e1, e2) == d2.wire(),
        forall|x: u64| !wire_at(s, e2, x.wire()),
    ensures
        !wire_at(s, at, v.wire()),
{
    if wire_at(s, at, v.wire()) {
        let pa1 = v.gas_object.wire();
        let pa2 = pa1 + v.gas_cost.wire();
        let pa3 = pa2 + v.computation_cost.wire();
        let pa4 = pa3 + v.storage_cost.wire();
        let pa5 = pa4 + v.storage_rebate.wire();
        let pa6 = pa5 + v.non_refundable_storage_fee.wire();
        assert(wire_at(s, at, pa6)) by {
            assert(pa6 =~= v.wire());
        }
        lemma_wire_split(s, at, pa5, v.non_refundable_storage_fee.wire());
        lemma_wire_split(s, at, pa4, v.storage_rebate.wire());
        lemma_wire_split(s, at, pa3, v.storage_cost.wire());
        lemma_wire_split(s, at, pa2, v.computation_cost.wire());
        lemma_wire_split(s, at, pa1, v.gas_cost.wire());
        assert(wire_at(s, at, d1.wire()));
        <String as Wire>::wire_prefix_free(s, at, d1, &v.gas_object);
        assert(at + pa1.len() == e1);
        assert(wire_at(s, e1, d2.wire()));
        <u64 as Wire>::wire_prefix_free(s, e1, d2, &v.gas_cost);
        assert(at + pa2.len() == e2);
        assert(wire_at(s, e2, v.computation_cost.wire()));
        assert(false);
    }
}

#[verifier::rlimit(100)]
#[verifier::spinoff_prover]
proof fn lemma_gas_effects_stuck_3(s: Seq<char>, at: int, d1: &String, d2: &u64, e1: int, e2: int)
    requires
        0 <= at <= s.len(),
        at <= e1 <= s.len(),
        s.subrange(at, e1) == d1.wire(),
        e1 <= e2 <= s.len(),
        s.subrange(e1, e2) == d2.wire(),
        forall|x: u64| !wire_at(s, e2, x.wire()),
    ensures
        forall|v: GasEffects| !wire_at(s, at, v.wire()),
{
    assert forall|v: GasEffects| !wire_at(s, at, v.wire()) by {
        if wire_at(s, at, v.wire()) {
            lemma_gas_effects_stuck_3_at(s, at, d1, d2, e1, e2, &v);
        }
    }
}

/// No value of this type can begin here when its next part is missing.
#[verifier::rlimit(100)]
#[verifier::spinoff_prover]
proof fn lemma_gas_effects_stuck_4_at(s: Seq<char>, at: int, d1: &String, d2: &u64, d3: &u64, e1: int, e2: int, e3: int, v: &GasEffects)
    requires
        0 <= at <= s.len(),
        at <= e1 <= s.len(),
        s.subrange(at, e1) == d1.wire(),
        e1 <= e2 <= s.len(),
        s.subrange(e1, e2) == d2.wire(),
        e2 <= e3 <= s.len(),
        s.subrange(e2, e3) == d3.wire(),
        forall|x: u64| !wire_at(s, e3, x.wire()),
    ensures
        !wire_at(s, at, v.wire()),
{
    if wire_at(s, at, v.wire()) {
        let pa1 = v.gas_object.wire();
        let pa2 = pa1 + v.gas_cost.wire();
        let pa3 = pa2 + v.computation_cost.wire();
        let pa4 = pa3 + v.storage_cost.wire();
        let pa5 = pa4 + v.storage_rebate.wire();
        let pa6 = pa5 + v.non_refundable_storage_fee.wire();
        assert(wire_at(s, at, pa6)) by {
            assert(pa6 =~= v.wire());
        }
        lemma_wire_split(s, at, pa5, v.non_refundable_storage_fee.wire());
        lemma_wire_split(s, at, pa4, v.storage_rebate.wire());
        lemma_wire_split(s, at, pa3, v.storage_cost.wire());
        lemma_wire_split(s, at, pa2, v.computation_cost.wire());
        lemma_wire_split(s, at, pa1, v.gas_cost.wire());
        assert(wire_at(s, at, d1.wire()));
        <String as Wire>::wire_prefix_free(s, at, d1, &v.gas_object);
        assert(at + pa1.len() == e1);
        assert(wire_at(s, e1, d2.wire()));
        <u64 as Wire>::wire_prefix_free(s, e1, d2, &v.gas_cost);
        assert(at + pa2.len() == e2);
        assert(wire_at(s, e2, d3.wire()));
        <u64 as Wire>::wire_prefix_free(s, e2, d3, &v.computation_cost);
        assert(at + pa3.len() == e3);
        assert(wire_at(s, e3, v.storage_cost.wire()));
        assert(false);
    }
}

#[verifier::rlimit(100)]
#[verifier::spinoff_prover]
proof fn lemma_gas_effects_stuck_4(s: Seq<char>, at: int, d1: &String, d2: &u64, d3: &u64, e1: int, e2: int, e3: int)
    requires
        0 <= at <= s.len(),
        at <= e1 <= s.len(),
        s.subrange(at, e1) == d1.wire(),
        e1 <= e2 <= s.len(),
        s.subrange(e1, e2) == d2.wire(),
        e2 <= e3 <= s.len(),
        s.subrange(e2, e3) == d3.wire(),
        forall|x: u64| !wire_at(s, e3, x.wire()),
    ensures
        forall|v: GasEffects| !wire_at(s, at, v.wire()),
{
    assert forall|v: GasEffects| !wire_at(s, at, v.wire()) by {
        if wire_at(s, at, v.wire()) {
            lemma_gas_effects_stuck_4_at(s, at, d1, d2, d3, e1, e2, e3, &v);
        }
    }
}

/// No value of this type can begin here when its next part is missing.
#[verifier::rlimit(100)]
#[verifier::spinoff_prover]
proof fn lemma_gas_effects_stuck_5_at(s: Seq<char>, at: int, d1: &String, d2: &u64, d3: &u64, d4: &u64, e1: int, e2: int, e3: int, e4: int, v: &GasEffects)
    requires
        0 <= at <= s.len(),
        at <= e1 <= s.len(),
        s.subrange(at, e1) == d1.wire(),
        e1 <= e2 <= s.len(),
        s.subrange(e1, e2) == d2.wire(),
        e2 <= e3 <= s.len(),
        s.subrange(e2, e3) == d3.wire(),
        e3 <= e4 <= s.len(),
        s.subrange(e3, e4) == d4.wire(),
        forall|x: u64| !wire_at(s, e4, x.wire()),
    ensures
        !wire_at(s, at, v.wire()),
{
    if wire_at(s, at, v.wire()) {
        let pa1 = v.gas_object.wire();
        let pa2 = pa1 + v.gas_cost.wire();
        let pa3 = pa2 + v.computation_cost.wire();
        let pa4 = pa3 + v.storage_cost.wire();
        let pa5 = pa4 + v.storage_rebate.wire();
        let pa6 = pa5 + v.non_refundable_storage_fee.wire();
        assert(wire_at(s, at, pa6)) by {
            assert(pa6 =~= v.wire());
        }
        lemma_wire_split(s, at, pa5, v.non_refundable_storage_fee.wire());
        lemma_wire_split(s, at, pa4, v.storage_rebate.wire());
        lemma_wire_split(s, at, pa3, v.storage_cost.wire());
        lemma_wire_split(s, at, pa2, v.computation_cost.wire());
        lemma_wire_split(s, at, pa1, v.gas_cost.wire());
        assert(wire_at(s, at, d1.wire()));
        <String as Wire>::wire_prefix_free(s, at, d1, &v.gas_object);
        assert(at + pa1.len() == e1);
        assert(wire_at(s, e1, d2.wire()));
        <u64 as Wire>::wire_prefix_free(s, e1, d2, &v.gas_cost);
        assert(at + pa2.len() == e2);
        assert(wire_at(s, e2, d3.wire()));
        <u64 as Wire>::wire_prefix_free(s, e2, d3, &v.computation_cost);
        assert(at + pa3.len() == e3);
        assert(wire_at(s, e3, d4.wire()));
        <u64 as Wire>::wire_prefix_free(s, e3, d4, &v.storage_cost);
        assert(at + pa4.len() == e4);
        assert(wire_at(s, e4, v.storage_rebate.wire()));
        assert(false);
    }
}

#[verifier::rlimit(100)]
#[verifier::spinoff_prover]
proof fn lemma_gas_effects_stuck_5(s: Seq<char>, at: int, d1: &String, d2: &u64, d3: &u64, d4: &u64, e1: int, e2: int, e3: int, e4: int)
    requires
        0 <= at <= s.len(),
        at <= e1 <= s.len(),
        s.subrange(at, e1) == d1.wire(),
        e1 <= e2 <= s.len(),
        s.subrange(e1, e2) == d2.wire(),
        e2 <= e3 <= s.len(),
        s.subrange(e2, e3) == d3.wire(),
        e3 <= e4 <= s.len(),
        s.subrange(e3, e4) == d4.wire(),
        forall|x: u64| !wire_at(s, e4, x.wire()),
    ensures
        forall|v: GasEffects| !wire_at(s, at, v.wire()),
{
    assert forall|v: GasEffects| !wire_at(s, at, v.wire()) by {
        if wire_at(s, at, v.wire()) {
            lemma_gas_effects_stuck_5_at(s, at, d1, d2, d3, d4, e1, e2, e3, e4, &v);
        }
    }
}

/// No value of this type can begin here when its next part is missing.
#[verifier::rlimit(100)]
#[verifier::spinoff_prover]
proof fn lemma_gas_effects_stuck_6_at(s: Seq<char>, at: int, d1: &String, d2: &u64, d3: &u64, d4: &u64, d5: &u64, e1: int, e2: int, e3: int, e4: int, e5: int, v: &GasEffects)
    requires
        0 <= at <= s.len(),
        at <= e1 <= s.len(),
        s.subrange(at, e1) == d1.wire(),
        e1 <= e2 <= s.len(),
        s.subrange(e1, e2) == d2.wire(),
        e2 <= e3 <= s.len(),
        s.subrange(e2, e3) == d3.wire(),
        e3 <= e4 <= s.len(),
        s.subrange(e3, e4) == d4.wire(),
        e4 <= e5 <= s.len(),
        s.subrange(e4, e5) == d5.wire(),
        forall|x: u64| !wire_at(s, e5, x.wire()),
    ensures
        !wire_at(s, at, v.wire()),
{
    if wire_at(s, at, v.wire()) {
        let pa1 = v.gas_object.wire();
        let pa2 = pa1 + v.gas_cost.wire();
        let pa3 = pa2 + v.computation_cost.wire();
        let pa4 = pa3 + v.storage_cost.wire();
        let pa5 = pa4 + v.storage_rebate.wire();
        let pa6 = pa5 + v.non_refundable_storage_fee.wire();
        assert(wire_at(s, at, pa6)) by {
            assert(pa6 =~= v.wire());
        }
        lemma_wire_split(s, at, pa5, v.non_refundable_storage_fee.wire());
        lemma_wire_split(s, at, pa4, v.storage_rebate.wire());
        lemma_wire_split(s, at, pa3, v.storage_cost.wire());
        lemma_wire_split(s, at, pa2, v.computation_cost.wire());
        lemma_wire_split(s, at, pa1, v.gas_cost.wire());
        assert(wire_at(s, at, d1.wire()));
        <String as Wire>::wire_prefix_free(s, at, d1, &v.gas_object);
        assert(at + pa1.len() == e1);
        assert(wire_at(s, e1, d2.wire()));
        <u64 as Wire>::wire_prefix_free(s, e1, d2, &v.gas_cost);
        assert(at + pa2.len() == e2);
        assert(wire_at(s, e2, d3.wire()));
        <u64 as Wire>::wire_prefix_free(s, e2, d3, &v.computation_cost);
        assert(at + pa3.len() == e3);
        assert(wire_at(s, e3, d4.wire()));
        <u64 as Wire>::wire_prefix_free(s, e3, d4, &v.storage_cost);
        assert(at + pa4.len() == e4);
        assert(wire_at(s, e4, d5.wire()));
        <u64 as Wire>::wire_prefix_free(s, e4, d5, &v.storage_rebate);
        assert(at + pa5.len() == e5);
        assert(wire_at(s, e5, v.non_refundable_storage_fee.wire()));
        assert(false);
    }
}

#[verifier::rlimit(100)]
#[verifier::spinoff_prover]
proof fn lemma_gas_effects_stuck_6(s: Seq<char>, at: int, d1: &String, d2: &u64, d3: &u64, d4: &u64, d5: &u64, e1: int, e2: int, e3: int, e4: int, e5: int)
    requires
        0 <= at <= s.len(),
        at <= e1 <= s.len(),
        s.subrange(at, e1) == d1.wire(),
        e1 <= e2 <= s.len(),
        s.subrange(e1, e2) == d2.wire(),
        e2 <= e3 <= s.len(),
        s.subrange(e2, e3) == d3.wire(),
        e3 <= e4 <= s.len(),
        s.subrange(e3, e4) == d4.wire(),
        e4 <= e5 <= s.len(),
        s.subrange(e4, e5) == d5.wire(),
        forall|x: u64| !wire_at(s, e5, x.wire()),
    ensures
        forall|v: GasEffects| !wire_at(s, at, v.wire()),
{
    assert forall|v: GasEffects| !wire_at(s, at, v.wire()) by {
        if wire_at(s, at, v.wire()) {
            lemma_gas_effects_stuck_6_at(s, at, d1, d2, d3, d4, d5, e1, e2, e3, e4, e5, &v);
        }
    }
}

impl Wire for GasEffects {
    open spec fn wire(&self) -> Seq<char> {
        self.gas_object.wire() + self.gas_cost.wire() + self.computation_cost.wire() + self.storage_cost.wire() + self.storage_rebate.wire() + self.non_refundable_storage_fee.wire()
    }

    open spec fn eqv(&self, other: &Self) -> bool {
        self.gas_object.eqv(&other.gas_object) && self.gas_cost == other.gas_cost && self.computation_cost == other.computation_cost && self.storage_cost == other.storage_cost && self.storage_rebate == other.storage_rebate && self.non_refundable_storage_fee == other.non_refundable_storage_fee
    }

    proof fn wire_nonempty(v: &Self) {
        <String as Wire>::wire_nonempty(&v.gas_object);
    }

    #[verifier::rlimit(100)]
    #[verifier::spinoff_prover]
    fn write(&self, out: &mut String) {
        self.gas_object.write(out);
        self.gas_cost.write(out);
        self.computation_cost.write(out);
        self.storage_cost.write(out);
        self.storage_rebate.write(out);
        self.non_refundable_storage_fee.write(out);
        proof {
            assert(final(out)@ =~= old(out)@ + self.wire());
        }
    }

    #[verifier::rlimit(100)]
    #[verifier::spinoff_prover]
    fn read(s: &str, at: usize) -> (r: Option<(Self, usize)>) {
        let (gas_object, e1) = match <String as Wire>::read(s, at) {
            Some(p) => p,
            None => {
                proof {
                    lemma_gas_effects_stuck_1(s@, at as int);
                }
                return None;
            },
        };
        let (gas_cost, e2) = match <u64 as Wire>::read(s, e1) {
            Some(p) => p,
            None => {
                proof {
                    lemma_gas_effects_stuck_2(s@, at as int, &gas_object, e1 as int);
                }
                return None;
            },
        };
        let (computation_cost, e3) = match <u64 as Wire>::read(s, e2) {
            Some(p) => p,
            None => {
                proof {
                    lemma_gas_effects_stuck_3(s@, at as int, &gas_object, &gas_cost, e1 as int, e2 as int);
                }
                return None;
            },
        };
        let (storage_cost, e4) = match <u64 as Wire>::read(s, e3) {
            Some(p) => p,
            None => {
                proof {
                    lemma_gas_effects_stuck_4(s@, at as int, &gas_object, &gas_cost, &computation_cost, e1 as int, e2 as int, e3 as int);
                }
                return None;
            },
        };
        let (storage_rebate, e5) = match <u64 as Wire>::read(s, e4) {
            Some(p) => p,
            None => {
                proof {
                    lemma_gas_effects_stuck_5(s@, at as int, &gas_object, &gas_cost, &computation_cost, &storage_cost, e1 as int, e2 as int, e3 as int, e4 as int);
                }
                return None;
            },
        };
        let (non_refundable_storage_fee, e6) = match <u64 as Wire>::read(s, e5) {
            Some(p) => p,
            None => {
                proof {
                    lemma_gas_effects_stuck_6(s@, at as int, &gas_object, &gas_cost, &computation_cost, &storage_cost, &storage_rebate, e1 as int, e2 as int, e3 as int, e4 as int, e5 as int);
                }
                return None;
            },
        };
        let v = GasEffects { gas_object, gas_cost, computation_cost, storage_cost, storage_rebate, non_refundable_storage_fee };
        proof {
            assert(s@.subrange(at as int, e6 as int) =~= v.wire());
        }
        Some((v, e6))
    }

    #[verifier::rlimit(100)]
    #[verifier::spinoff_prover]
    proof fn wire_prefix_free(s: Seq<char>, at: int, v1: &Self, v2: &Self) {
        let p1a = v1.gas_object.wire();
        let p2a = p1a + v1.gas_cost.wire();
        let p3a = p2a + v1.computation_cost.wire();
        let p4a = p3a + v1.storage_cost.wire();
        let p5a = p4a + v1.storage_rebate.wire();
        let p6a = p5a + v1.non_refundable_storage_fee.wire();
        let p1b = v2.gas_object.wire();
        let p2b = p1b + v2.gas_cost.wire();
        let p3b = p2b + v2.computation_cost.wire();
        let p4b = p3b + v2.storage_cost.wire();
        let p5b = p4b + v2.storage_rebate.wire();
        let p6b = p5b + v2.non_refundable_storage_fee.wire();
        assert(wire_at(s, at, p6a)) by {
            assert(p6a =~= v1.wire());
        }
        assert(wire_at(s, at, p6b)) by {
            assert(p6b =~= v2.wire());
        }
        lemma_wire_split(s, at, p5a, v1.non_refundable_storage_fee.wire());
        lemma_wire_split(s, at, p5b, v2.non_refundable_storage_fee.wire());
        lemma_wire_split(s, at, p4a, v1.storage_rebate.wire());
        lemma_wire_split(s, at, p4b, v2.storage_rebate.wire());
        lemma_wire_split(s, at, p3a, v1.storage_cost.wire());
        lemma_wire_split(s, at, p3b, v2.storage_cost.wire());
        lemma_wire_split(s, at, p2a, v1.computation_cost.wire());
        lemma_wire_split(s, at, p2b, v2.computation_cost.wire());
        lemma_wire_split(s, at, p1a, v1.gas_cost.wire());
        lemma_wire_split(s, at, p1b, v2.gas_cost.wire());
        <String as Wire>::wire_prefix_free(s, at, &v1.gas_object, &v2.gas_object);
        assert(p1a == p1b);
        <u64 as Wire>::wire_prefix_free(s, at + p1a.len(), &v1.gas_cost, &v2.gas_cost);
        assert(p2a == p2b);
        <u64 as Wire>::wire_prefix_free(s, at + p2a.len(), &v1.computation_cost, &v2.computation_cost);
        assert(p3a == p3b);
        <u64 as Wire>::wire_prefix_free(s, at + p3a.len(), &v1.storage_cost, &v2.storage_cost);
        assert(p4a == p4b);
        <u64 as Wire>::wire_prefix_free(s, at + p4a.len(), &v1.storage_rebate, &v2.storage_rebate);
        assert(p5a == p5b);
        <u64 as Wire>::wire_prefix_free(s, at + p5a.len(), &v1.non_refundable_storage_fee, &v2.non_refundable_storage_fee);
        assert(v1.wire() =~= v2.wire());
    }
}


/// No value of this type can begin here when its next part is missing.
#[verifier::rlimit(100)]
#[verifier::spinoff_prover]
proof fn lemma_event_stuck_1_at(s: Seq<char>, at: int, v: &Event)
    requires
        0 <= at <= s.len(),
        forall|x: String| !wire_at(s, at, x.wire()),
    ensures
        !wire_at(s, at, v.wire()),
{
    if wire_at(s, at, v.wire()) {
        let pa1 = v.package_id.wire();
        let pa2 = pa1 + v.module.wire();
        let pa3 = pa2 + v.event_type.wire();
        let pa4 = pa3 + v.sender.wire();
        let pa5 = pa4 + v.transaction_module.wire();
        let pa6 = pa5 + v.parsed_json.wire();
        let pa7 = pa6 + v.bcs.wire();
        let pa8 = pa7 + v.event_index.wire();
        assert(wire_at(s, at, pa8)) by {
            assert(pa8 =~= v.wire());
        }
        lemma_wire_split(s, at, pa7, v.event_index.wire());
        lemma_wire_split(s, at, pa6, v.bcs.wire());
        lemma_wire_split(s, at, pa5, v.parsed_json.wire());
        lemma_wire_split(s, at, pa4, v.transaction_module.wire());
        lemma_wire_split(s, at, pa3, v.sender.wire());
        lemma_wire_split(s, at, pa2, v.event_type.wire());
        lemma_wire_split(s, at, pa1, v.module.wire());
        assert(wire_at(s, at, v.package_id.wire()));
        assert(false);
    }
}

#[verifier::rlimit(100)]
#[verifier::spinoff_prover]
proof fn lemma_event_stuck_1(s: Seq<char>, at: int)
    requires
        0 <= at <= s.len(),
        forall|x: String| !wire_at(s, at, x.wire()),
    ensures
        forall|v: Event| !wire_at(s, at, v.wire()),
{
    assert forall|v: Event| !wire_at(s, at, v.wire()) by {
        if wire_at(s, at, v.wire()) {
            lemma_event_stuck_1_at(s, at, &v);
        }
    }
}

/// No value of this type can begin here when its next part is missing.
#[verifier::rlimit(100)]
#[verifier::spinoff_prover]
proof fn lemma_event_stuck_2_at(s: Seq<char>, at: int, d1: &String, e1: int, v: &Event)
    requires
        0 <= at <= s.len(),
        at <= e1 <= s.len(),
        s.subrange(at, e1) == d1.wire(),
        forall|x: String| !wire_at(s, e1, x.wire()),
    ensures
        !wire_at(s, at, v.wire()),
{
    if wire_at(s, at, v.wire()) {
        let pa1 = v.package_id.wire();
        let pa2 = pa1 + v.module.wire();
        let pa3 = pa2 + v.event_type.wire();
        let pa4 = pa3 + v.sender.wire();
        let pa5 = pa4 + v.transaction_module.wire();
        let pa6 = pa5 + v.parsed_json.wire();
        let pa7 = pa6 + v.bcs.wire();
        let pa8 = pa7 + v.event_index.wire();
        assert(wire_at(s, at, pa8)) by {
            assert(pa8 =~= v.wire());
        }
        lemma_wire_split(s, at, pa7, v.event_index.wire());
        lemma_wire_split(s, at, pa6, v.bcs.wire());
        lemma_wire_split(s, at, pa5, v.parsed_json.wire());
        lemma_wire_split(s, at, pa4, v.transaction_module.wire());
        lemma_wire_split(s, at, pa3, v.sender.wire());
        lemma_wire_split(s, at, pa2, v.event_type.wire());
        lemma_wire_split(s, at, pa1, v.module.wire());
        assert(wire_at(s, at, d1.wire()));
        <String as Wire>::wire_prefix_free(s, at, d1, &v.package_id);
        assert(at + pa1.len() == e1);
        assert(wire_at(s, e1, v.module.wire()));
        assert(false);
    }
}

#[verifier::rlimit(100)]
#[verifier::spinoff_prover]
proof fn lemma_event_stuck_2(s: Seq<char>, at: int, d1: &String, e1: int)
    requires
        0 <= at <= s.len(),
        at <= e1 <= s.len(),
        s.subrange(at, e1) == d1.wire(),
        forall|x: String| !wire_at(s, e1, x.wire()),
    ensures
        forall|v: Event| !wire_at(s, at, v.wire()),
{
    assert forall|v: Event| !wire_at(s, at, v.wire()) by {
        if wire_at(s, at, v.wire()) {
            lemma_event_stuck_2_at(s, at, d1, e1, &v);
        }
    }
}

/// No value of this type can begin here when its next part is missing.
#[verifier::rlimit(100)]
#[verifier::spinoff_prover]
proof fn lemma_event_stuck_3_at(s: Seq<char>, at: int, d1: &String, d2: &String, e1: int, e2: int, v: &Event)
    requires
        0 <= at <= s.len(),
        at <= e1 <= s.len(),
        s.subrange(at, e1) == d1.wire(),
        e1 <= e2 <= s.len(),
        s.subrange(e1, e2) == d2.wire(),
        forall|x: String| !wire_at(s, e2, x.wire()),
    ensures
        !wire_at(s, at, v.wire()),
{
    if wire_at(s, at, v.wire()) {
        let pa1 = v.package_id.wire();
        let pa2 = pa1 + v.module.wire();
        let pa3 = pa2 + v.event_type.wire();
        let pa4 = pa3 + v.sender.wire();
        let pa5 = pa4 + v.transaction_module.wire();
        let pa6 = pa5 + v.parsed_json.wire();
        let pa7 = pa6 + v.bcs.wire();
        let pa8 = pa7 + v.event_index.wire();
        assert(wire_at(s, at, pa8)) by {
            assert(pa8 =~= v.wire());
        }
        lemma_wire_split(s, at, pa7, v.event_index.wire());
        lemma_wire_split(s, at, pa6, v.bcs.wire());
        lemma_wire_split(s, at, pa5, v.parsed_json.wire());
        lemma_wire_split(s, at, pa4, v.transaction_module.wire());
        lemma_wire_split(s, at, pa3, v.sender.wire());
        lemma_wire_split(s, at, pa2, v.event_type.wire());
        lemma_wire_split(s, at, pa1, v.module.wire());
        assert(wire_at(s, at, d1.wire()));
        <String as Wire>::wire_prefix_free(s, at, d1, &v.package_id);
        assert(at + pa1.len() == e1);
        assert(wire_at(s, e1, d2.wire()));
        <String as Wire>::wire_prefix_free(s, e1, d2, &v.module);
        assert(at + pa2.len() == e2);
        assert(wire_at(s, e2, v.event_type.wire()));
        assert(false);
    }
}

#[verifier::rlimit(100)]
#[verifier::spinoff_prover]
proof fn lemma_event_stuck_3(s: Seq<char>, at: int, d1: &String, d2: &String, e1: int, e2: int)
    requires
        0 <= at <= s.len(),
        at <= e1 <= s.len(),
        s.subrange(at, e1) == d1.wire(),
        e1 <= e2 <= s.len(),
        s.subrange(e1, e2) == d2.wire(),
        forall|x: String| !wire_at(s, e2, x.wire()),
    ensures
        forall|v: Event| !wire_at(s, at, v.wire()),
{
    assert forall|v: Event| !wire_at(s, at, v.wire()) by {
        if wire_at(s, at, v.wire()) {
            lemma_event_stuck_3_at(s, at, d1, d2, e1, e2, &v);
        }
    }
}

/// No value of this type can begin here when its next part is missing.
#[verifier::rlimit(100)]
#[verifier::spinoff_prover]
proof fn lemma_event_stuck_4_at(s: Seq<char>, at: int, d1: &String, d2: &String, d3: &String, e1: int, e2: int, e3: int, v: &Event)
    requires
        0 <= at <= s.len(),
        at <= e1 <= s.len(),
        s.subrange(at, e1) == d1.wire(),
        e1 <= e2 <= s.len(),
        s.subrange(e1, e2) == d2.wire(),
        e2 <= e3 <= s.len(),
        s.subrange(e2, e3) == d3.wire(),
        forall|x: String| !wire_at(s, e3, x.wire()),
    ensures
        !wire_at(s, at, v.wire()),
{
    if wire_at(s, at, v.wire()) {
        let pa1 = v.package_id.wire();
        let pa2 = pa1 + v.module.wire();
        let pa3 = pa2 + v.event_type.wire();
        let pa4 = pa3 + v.sender.wire();
        let pa5 = pa4 + v.transaction_module.wire();
        let pa6 = pa5 + v.parsed_json.wire();
        let pa7 = pa6 + v.bcs.wire();
        let pa8 = pa7 + v.event_index.wire();
        assert(wire_at(s, at, pa8)) by {
            assert(pa8 =~= v.wire());
        }
        lemma_wire_split(s, at, pa7, v.event_index.wire());
        lemma_wire_split(s, at, pa6, v.bcs.wire());
        lemma_wire_split(s, at, pa5, v.parsed_json.wire());
        lemma_wire_split(s, at, pa4, v.transaction_module.wire());
        lemma_wire_split(s, at, pa3, v.sender.wire());
        lemma_wire_split(s, at, pa2, v.event_type.wire());
        lemma_wire_split(s, at, pa1, v.module.wire());
        assert(wire_at(s, at, d1.wire()));
        <String as Wire>::wire_prefix_free(s, at, d1, &v.package_id);
        assert(at + pa1.len() == e1);
        assert(wire_at(s, e1, d2.wire()));
        <String as Wire>::wire_prefix_free(s, e1, d2, &v.module);
        assert(at + pa2.len() == e2);
        assert(wire_at(s, e2, d3.wire()));
        <String as Wire>::wire_prefix_free(s, e2, d3, &v.event_type);
        assert(at + pa3.len() == e3);
        assert(wire_at(s, e3, v.sender.wire()));
        assert(false);
    }
}

#[verifier::rlimit(100)]
#[verifier::spinoff_prover]
proof fn lemma_event_stuck_4(s: Seq<char>, at: int, d1: &String, d2: &String, d3: &String, e1: int, e2: int, e3: int)
    requires
        0 <= at <= s.len(),
        at <= e1 <= s.len(),
        s.subrange(at, e1) == d1.wire(),
        e1 <= e2 <= s.len(),
        s.subrange(e1, e2) == d2.wire(),
        e2 <= e3 <= s.len(),
        s.subrange(e2, e3) == d3.wire(),
        forall|x: String| !wire_at(s, e3, x.wire()),
    ensures
        forall|v: Event| !wire_at(s, at, v.wire()),
{
    assert forall|v: Event| !wire_at(s, at, v.wire()) by {
        if wire_at(s, at, v.wire()) {
            lemma_event_stuck_4_at(s, at, d1, d2, d3, e1, e2, e3, &v);
        }
    }
}

/// No value of this type can begin here when its next part is missing.
#[verifier::rlimit(100)]
#[verifier::spinoff_prover]
proof fn lemma_event_stuck_5_at(s: Seq<char>, at: int, d1: &String, d2: &String, d3: &String, d4: &String, e1: int, e2: int, e3: int, e4: int, v: &Event)
    requires
        0 <= at <= s.len(),
        at <= e1 <= s.len(),
        s.subrange(at, e1) == d1.wire(),
        e1 <= e2 <= s.len(),
        s.subrange(e1, e2) == d2.wire(),
        e2 <= e3 <= s.len(),
        s.subrange(e2, e3) == d3.wire(),
        e3 <= e4 <= s.len(),
        s.subrange(e3, e4) == d4.wire(),
        forall|x: String| !wire_at(s, e4, x.wire()),
    ensures
        !wire_at(s, at, v.wire()),
{
    if wire_at(s, at, v.wire()) {
        let pa1 = v.package_id.wire();
        let pa2 = pa1 + v.module.wire();
        let pa3 = pa2 + v.event_type.wire();
        let pa4 = pa3 + v.sender.wire();
        let pa5 = pa4 + v.transaction_module.wire();
        let pa6 = pa5 + v.parsed_json.wire();
        let pa7 = pa6 + v.bcs.wire();
        let pa8 = pa7 + v.event_index.wire();
        assert(wire_at(s, at, pa8)) by {
            assert(pa8 =~= v.wire());
        }
        lemma_wire_split(s, at, pa7, v.event_index.wire());
        lemma_wire_split(s, at, pa6, v.bcs.wire());
        lemma_wire_split(s, at, pa5, v.parsed_json.wire());
        lemma_wire_split(s, at, pa4, v.transaction_module.wire());
        lemma_wire_split(s, at, pa3, v.sender.wire());
        lemma_wire_split(s, at, pa2, v.event_type.wire());
        lemma_wire_split(s, at, pa1, v.module.wire());
        assert(wire_at(s, at, d1.wire()));
        <String as Wire>::wire_prefix_free(s, at, d1, &v.package_id);
        assert(at + pa1.len() == e1);
        assert(wire_at(s, e1, d2.wire()));
        <String as Wire>::wire_prefix_free(s, e1, d2, &v.module);
        assert(at + pa2.len() == e2);
        assert(wire_at(s, e2, d3.wire()));
        <String as Wire>::wire_prefix_free(s, e2, d3, &v.event_type);
        assert(at + pa3.len() == e3);
        assert(wire_at(s, e3, d4.wire()));
        <String as Wire>::wire_prefix_free(s, e3, d4, &v.sender);
        assert(at + pa4.len() == e4);
        assert(wire_at(s, e4, v.transaction_module.wire()));
        assert(false);
    }
}

#[verifier::rlimit(100)]
#[verifier::spinoff_prover]
proof fn lemma_event_stuck_5(s: Seq<char>, at: int, d1: &String, d2: &String, d3: &String, d4: &String, e1: int, e2: int, e3: int, e4: int)
    requires
        0 <= at <= s.len(),
        at <= e1 <= s.len(),
        s.subrange(at, e1) == d1.wire(),
        e1 <= e2 <= s.len(),
        s.subrange(e1, e2) == d2.wire(),
        e2 <= e3 <= s.len(),
        s.subrange(e2, e3) == d3.wire(),
        e3 <= e4 <= s.len(),
        s.subrange(e3, e4) == d4.wire(),
        forall|x: String| !wire_at(s, e4, x.wire()),
    ensures
        forall|v: Event| !wire_at(s, at, v.wire()),
{
    assert forall|v: Event| !wire_at(s, at, v.wire()) by {
        if wire_at(s, at, v.wire()) {
            lemma_event_stuck_5_at(s, at, d1, d2, d3, d4, e1, e2, e3, e4, &v);
        }
    }
}

/// No value of this type can begin here when its next part is missing.
#[verifier::rlimit(100)]
#[verifier::spinoff_prover]
proof fn lemma_event_stuck_6_at(s: Seq<char>, at: int, d1: &String, d2: &String, d3: &String, d4: &String, d5: &String, e1: int, e2: int, e3: int, e4: int, e5: int, v: &Event)
    requires
        0 <= at <= s.len(),
        at <= e1 <= s.len(),
        s.subrange(at, e1) == d1.wire(),
        e1 <= e2 <= s.len(),
        s.subrange(e1, e2) == d2.wire(),
        e2 <= e3 <= s.len(),
        s.subrange(e2, e3) == d3.wire(),
        e3 <= e4 <= s.len(),
        s.subrange(e3, e4) == d4.wire(),
        e4 <= e5 <= s.len(),
        s.subrange(e4, e5) == d5.wire(),
        forall|x: String| !wire_at(s, e5, x.wire()),
    ensures
        !wire_at(s, at, v.wire()),
{
    if wire_at(s, at, v.wire()) {
        let pa1 = v.package_id.wire();
        let pa2 = pa1 + v.module.wire();
        let pa3 = pa2 + v.event_type.wire();
        let pa4 = pa3 + v.sender.wire();
        let pa5 = pa4 + v.transaction_module.wire();
        let pa6 = pa5 + v.parsed_json.wire();
        let pa7 = pa6 + v.bcs.wire();
        let pa8 = pa7 + v.event_index.wire();
        assert(wire_at(s, at, pa8)) by {
            assert(pa8 =~= v.wire());
        }
        lemma_wire_split(s, at, pa7, v.event_index.wire());
        lemma_wire_split(s, at, pa6, v.bcs.wire());
        lemma_wire_split(s, at, pa5, v.parsed_json.wire());
        lemma_wire_split(s, at, pa4, v.transaction_module.wire());
        lemma_wire_split(s, at, pa3, v.sender.wire());
        lemma_wire_split(s, at, pa2, v.event_type.wire());
        lemma_wire_split(s, at, pa1, v.module.wire());
        assert(wire_at(s, at, d1.wire()));
        <String as Wire>::wire_prefix_free(s, at, d1, &v.package_id);
        assert(at + pa1.len() == e1);
        assert(wire_at(s, e1, d2.wire()));
        <String as Wire>::wire_prefix_free(s, e1, d2, &v.module);
        assert(at + pa2.len() == e2);
        assert(wire_at(s, e2, d3.wire()));
        <String as Wire>::wire_prefix_free(s, e2, d3, &v.event_type);
        assert(at + pa3.len() == e3);
        assert(wire_at(s, e3, d4.wire()));
        <String as Wire>::wire_prefix_free(s, e3, d4, &v.sender);
        assert(at + pa4.len() == e4);
        assert(wire_at(s, e4, d5.wire()));
        <String as Wire>::wire_prefix_free(s, e4, d5, &v.transaction_module);
        assert(at + pa5.len() == e5);
        assert(wire_at(s, e5, v.parsed_json.wire()));
        assert(false);
    }
}

#[verifier::rlimit(100)]
#[verifier::spinoff_prover]
proof fn lemma_event_stuck_6(s: Seq<char>, at: int, d1: &String, d2: &String, d3: &String, d4: &String, d5: &String, e1: int, e2: int, e3: int, e4: int, e5: int)
    requires
        0 <= at <= s.len(),
        at <= e1 <= s.len(),
        s.subrange(at, e1) == d1.wire(),
        e1 <= e2 <= s.len(),
        s.subrange(e1, e2) == d2.wire(),
        e2 <= e3 <= s.len(),
        s.subrange(e2, e3) == d3.wire(),
        e3 <= e4 <= s.len(),
        s.subrange(e3, e4) == d4.wire(),
        e4 <= e5 <= s.len(),
        s.subrange(e4, e5) == d5.wire(),
        forall|x: String| !wire_at(s, e5, x.wire()),
    ensures
        forall|v: Event| !wire_at(s, at, v.wire()),
{
    assert forall|v: Event| !wire_at(s, at, v.wire()) by {
        if wire_at(s, at, v.wire()) {
            lemma_event_stuck_6_at(s, at, d1, d2, d3, d4, d5, e1, e2, e3, e4, e5, &v);
        }
    }
}

/// No value of this type can begin here when its next part is missing.
#[verifier::rlimit(100)]
#[verifier::spinoff_prover]
proof fn lemma_event_stuck_7_at(s: Seq<char>, at: int, d1: &String, d2: &String, d3: &String, d4: &String, d5: &String, d6: &String, e1: int, e2: int, e3: int, e4: int, e5: int, e6: int, v: &Event)
    requires
        0 <= at <= s.len(),
        at <= e1 <= s.len(),
        s.subrange(at, e1) == d1.wire(),
        e1 <= e2 <= s.len(),
        s.subrange(e1, e2) == d2.wire(),
        e2 <= e3 <= s.len(),
        s.subrange(e2, e3) == d3.wire(),
        e3 <= e4 <= s.len(),
        s.subrange(e3, e4) == d4.wire(),
        e4 <= e5 <= s.len(),
        s.subrange(e4, e5) == d5.wire(),
        e5 <= e6 <= s.len(),
        s.subrange(e5, e6) == d6.wire(),
        forall|x: String| !wire_at(s, e6, x.wire()),
    ensures
        !wire_at(s, at, v.wire()),
{
    if wire_at(s, at, v.wire()) {
        let pa1 = v.package_id.wire();
        let pa2 = pa1 + v.module.wire();
        let pa3 = pa2 + v.event_type.wire();
        let pa4 = pa3 + v.sender.wire();
        let pa5 = pa4 + v.transaction_module.wire();
        let pa6 = pa5 + v.parsed_json.wire();
        let pa7 = pa6 + v.bcs.wire();
        let pa8 = pa7 + v.event_index.wire();
        assert(wire_at(s, at, pa8)) by {
            assert(pa8 =~= v.wire());
        }
        lemma_wire_split(s, at, pa7, v.event_index.wire());
        lemma_wire_split(s, at, pa6, v.bcs.wire());
        lemma_wire_split(s, at, pa5, v.parsed_json.wire());
        lemma_wire_split(s, at, pa4, v.transaction_module.wire());
        lemma_wire_split(s, at, pa3, v.sender.wire());
        lemma_wire_split(s, at, pa2, v.event_type.wire());
        lemma_wire_split(s, at, pa1, v.module.wire());
        assert(wire_at(s, at, d1.wire()));
        <String as Wire>::wire_prefix_free(s, at, d1, &v.package_id);
        assert(at + pa1.len() == e1);
        assert(wire_at(s, e1, d2.wire()));
        <String as Wire>::wire_prefix_free(s, e1, d2, &v.module);
        assert(at + pa2.len() == e2);
        assert(wire_at(s, e2, d3.wire()));
        <String as Wire>::wire_prefix_free(s, e2, d3, &v.event_type);
        assert(at + pa3.len() == e3);
        assert(wire_at(s, e3, d4.wire()));
        <String as Wire>::wire_prefix_free(s, e3, d4, &v.sender);
        assert(at + pa4.len() == e4);
        assert(wire_at(s, e4, d5.wire()));
        <String as Wire>::wire_prefix_free(s, e4, d5, &v.transaction_module);
        assert(at + pa5.len() == e5);
        assert(wire_at(s, e5, d6.wire()));
        <String as Wire>::wire_prefix_free(s, e5, d6, &v.parsed_json);
        assert(at + pa6.len() == e6);
        assert(wire_at(s, e6, v.bcs.wire()));
        assert(false);
    }
}

#[verifier::rlimit(100)]
#[verifier::spinoff_prover]
proof fn lemma_event_stuck_7(s: Seq<char>, at: int, d1: &String, d2: &String, d3: &String, d4: &String, d5: &String, d6: &String, e1: int, e2: int, e3: int, e4: int, e5: int, e6: int)
    requires
        0 <= at <= s.len(),
        at <= e1 <= s.len(),
        s.subrange(at, e1) == d1.wire(),
        e1 <= e2 <= s.len(),
        s.subrange(e1, e2) == d2.wire(),
        e2 <= e3 <= s.len(),
        s.subrange(e2, e3) == d3.wire(),
        e3 <= e4 <= s.len(),
        s.subrange(e3, e4) == d4.wire(),
        e4 <= e5 <= s.len(),
        s.subrange(e4, e5) == d5.wire(),
        e5 <= e6 <= s.len(),
        s.subrange(e5, e6) == d6.wire(),
        forall|x: String| !wire_at(s, e6, x.wire()),
    ensures
        forall|v: Event| !wire_at(s, at, v.wire()),
{
    assert forall|v: Event| !wire_at(s, at, v.wire()) by {
        if wire_at(s, at, v.wire()) {
            lemma_event_stuck_7_at(s, at, d1, d2, d3, d4, d5, d6, e1, e2, e3, e4, e5, e6, &v);
        }
    }
}

/// No value of this type can begin here when its next part is missing.
#[verifier::rlimit(100)]
#[verifier::spinoff_prover]
proof fn lemma_event_stuck_8_at(s: Seq<char>, at: int, d1: &String, d2: &String, d3: &String, d4: &String, d5: &String, d6: &String, d7: &String, e1: int, e2: int, e3: int, e4: int, e5: int, e6: int, e7: int, v: &Event)
    requires
        0 <= at <= s.len(),
        at <= e1 <= s.len(),
        s.subrange(at, e1) == d1.wire(),
        e1 <= e2 <= s.len(),
        s.subrange(e1, e2) == d2.wire(),
        e2 <= e3 <= s.len(),
        s.subrange(e2, e3) == d3.wire(),
        e3 <= e4 <= s.len(),
        s.subrange(e3, e4) == d4.wire(),
        e4 <= e5 <= s.len(),
        s.subrange(e4, e5) == d5.wire(),
        e5 <= e6 <= s.len(),
        s.subrange(e5, e6) == d6.wire(),
        e6 <= e7 <= s.len(),
        s.subrange(e6, e7) == d7.wire(),
        forall|x: u64| !wire_at(s, e7, x.wire()),
    ensures
        !wire_at(s, at, v.wire()),
{
    if wire_at(s, at, v.wire()) {
        let pa1 = v.package_id.wire();
        let pa2 = pa1 + v.module.wire();
        let pa3 = pa2 + v.event_type.wire();
        let pa4 = pa3 + v.sender.wire();
        let pa5 = pa4 + v.transaction_module.wire();
        let pa6 = pa5 + v.parsed_json.wire();
        let pa7 = pa6 + v.bcs.wire();
        let pa8 = pa7 + v.event_index.wire();
        assert(wire_at(s, at, pa8)) by {
            assert(pa8 =~= v.wire());
        }
        lemma_wire_split(s, at, pa7, v.event_index.wire());
        lemma_wire_split(s, at, pa6, v.bcs.wire());
        lemma_wire_split(s, at, pa5, v.parsed_json.wire());
        lemma_wire_split(s, at, pa4, v.transaction_module.wire());
        lemma_wire_split(s, at, pa3, v.sender.wire());
        lemma_wire_split(s, at, pa2, v.event_type.wire());
        lemma_wire_split(s, at, pa1, v.module.wire());
        assert(wire_at(s, at, d1.wire()));
        <String as Wire>::wire_prefix_free(s, at, d1, &v.package_id);
        assert(at + pa1.len() == e1);
        assert(wire_at(s, e1, d2.wire()));
        <String as Wire>::wire_prefix_free(s, e1, d2, &v.module);
        assert(at + pa2.len() == e2);
        assert(wire_at(s, e2, d3.wire()));
        <String as Wire>::wire_prefix_free(s, e2, d3, &v.event_type);
        assert(at + pa3.len() == e3);
        assert(wire_at(s, e3, d4.wire()));
        <String as Wire>::wire_prefix_free(s, e3, d4, &v.sender);
        assert(at + pa4.len() == e4);
        assert(wire_at(s, e4, d5.wire()));
        <String as Wire>::wire_prefix_free(s, e4, d5, &v.transaction_module);
        assert(at + pa5.len() == e5);
        assert(wire_at(s, e5, d6.wire()));
        <String as Wire>::wire_prefix_free(s, e5, d6, &v.parsed_json);
        assert(at + pa6.len() == e6);
        assert(wire_at(s, e6, d7.wire()));
        <String as Wire>::wire_prefix_free(s, e6, d7, &v.bcs);
        assert(at + pa7.len() == e7);
        assert(wire_at(s, e7, v.event_index.wire()));
        assert(false);
    }
}

#[verifier::rlimit(100)]
#[verifier::spinoff_prover]
proof fn lemma_event_stuck_8(s: Seq<char>, at: int, d1: &String, d2: &String, d3: &String, d4: &String, d5: &String, d6: &String, d7: &String, e1: int, e2: int, e3: int, e4: int, e5: int, e6: int, e7: int)
    requires
        0 <= at <= s.len(),
        at <= e1 <= s.len(),
        s.subrange(at, e1) == d1.wire(),
        e1 <= e2 <= s.len(),
        s.subrange(e1, e2) == d2.wire(),
        e2 <= e3 <= s.len(),
        s.subrange(e2, e3) == d3.wire(),
        e3 <= e4 <= s.len(),
        s.subrange(e3, e4) == d4.wire(),
        e4 <= e5 <= s.len(),
        s.subrange(e4, e5) == d5.wire(),
        e5 <= e6 <= s.len(),
        s.subrange(e5, e6) == d6.wire(),
        e6 <= e7 <= s.len(),
        s.subrange(e6, e7) == d7.wire(),
        forall|x: u64| !wire_at(s, e7, x.wire()),
    ensures
        forall|v: Event| !wire_at(s, at, v.wire()),
{
    assert forall|v: Event| !wire_at(s, at, v.wire()) by {
        if wire_at(s, at, v.wire()) {
            lemma_event_stuck_8_at(s, at, d1, d2, d3, d4, d5, d6, d7, e1, e2, e3, e4, e5, e6, e7, &v);
        }
    }
}

impl Wire for Event {
    open spec fn wire(&self) -> Seq<char> {
        self.package_id.wire() + self.module.wire() + self.event_type.wire() + self.sender.wire() + self.transaction_module.wire() + self.parsed_json.wire() + self.bcs.wire() + self.event_index.wire()
    }

    open spec fn eqv(&self, other: &Self) -> bool {
        self.package_id.eqv(&other.package_id) && self.module.eqv(&other.module) && self.event_type.eqv(&other.event_type) && self.sender.eqv(&other.sender) && self.transaction_module.eqv(&other.transaction_module) && self.parsed_json.eqv(&other.parsed_json) && self.bcs.eqv(&other.bcs) && self.event_index == other.event_index
    }

    proof fn wire_nonempty(v: &Self) {
        <String as Wire>::wire_nonempty(&v.package_id);
    }

    #[verifier::rlimit(100)]
    #[verifier::spinoff_prover]
    fn write(&self, out: &mut String) {
        self.package_id.write(out);
        self.module.write(out);
        self.event_type.write(out);
        self.sender.write(out);
        self.transaction_module.write(out);
        self.parsed_json.write(out);
        self.bcs.write(out);
        self.event_index.write(out);
        proof {
            assert(final(out)@ =~= old(out)@ + self.wire());
        }
    }

    #[verifier::rlimit(100)]
    #[verifier::spinoff_prover]
    fn read(s: &str, at: usize) -> (r: Option<(Self, usize)>) {
        let (package_id, e1) = match <String as Wire>::read(s, at) {
            Some(p) => p,
            None => {
                proof {
                    lemma_event_stuck_1(s@, at as int);
                }
                return None;
            },
        };
        let (module, e2) = match <String as Wire>::read(s, e1) {
            Some(p) => p,
            None => {
                proof {
                    lemma_event_stuck_2(s@, at as int, &package_id, e1 as int);
                }
                return None;
            },
        };
        let (event_type, e3) = match <String as Wire>::read(s, e2) {
            Some(p) => p,
            None => {
                proof {
                    lemma_event_stuck_3(s@, at as int, &package_id, &module, e1 as int, e2 as int);
                }
                return None;
            },
        };
        let (sender, e4) = match <String as Wire>::read(s, e3) {
            Some(p) => p,
            None => {
                proof {
                    lemma_event_stuck_4(s@, at as int, &package_id, &module, &event_type, e1 as int, e2 as int, e3 as int);
                }
                return None;
            },
        };
        let (transaction_module, e5) = match <String as Wire>::read(s, e4) {
            Some(p) => p,
            None => {
                proof {
                    lemma_event_stuck_5(s@, at as int, &package_id, &module, &event_type, &sender, e1 as int, e2 as int, e3 as int, e4 as int);
                }
                return None;
            },
        };
        let (parsed_json, e6) = match <String as Wire>::read(s, e5) {
            Some(p) => p,
            None => {
                proof {
                    lemma_event_stuck_6(s@, at as int, &package_id, &module, &event_type, &sender, &transaction_module, e1 as int, e2 as int, e3 as int, e4 as int, e5 as int);
                }
                return None;
            },
        };
        let (bcs, e7) = match <String as Wire>::read(s, e6) {
            Some(p) => p,
            None => {
                proof {
                    lemma_event_stuck_7(s@, at as int, &package_id, &module, &event_type, &sender, &transaction_module, &parsed_json, e1 as int, e2 as int, e3 as int, e4 as int, e5 as int, e6 as int);
                }
                return None;
            },
        };
        let (event_index, e8) = match <u64 as Wire>::read(s, e7) {
            Some(p) => p,
            None => {
                proof {
                    lemma_event_stuck_8(s@, at as int, &package_id, &module, &event_type, &sender, &transaction_module, &parsed_json, &bcs, e1 as int, e2 as int, e3 as int, e4 as int, e5 as int, e6 as int, e7 as int);
                }
                return None;
            },
        };
        let v = Event { package_id, module, event_type, sender, transaction_module, parsed_json, bcs, event_index };
        proof {
            assert(s@.subrange(at as int, e8 as int) =~= v.wire());
        }
        Some((v, e8))
    }

    #[verifier::rlimit(100)]
    #[verifier::spinoff_prover]
    proof fn wire_prefix_free(s: Seq<char>, at: int, v1: &Self, v2: &Self) {
        let p1a = v1.package_id.wire();
        let p2a = p1a + v1.module.wire();
        let p3a = p2a + v1.event_type.wire();
        let p4a = p3a + v1.sender.wire();
        let p5a = p4a + v1.transaction_module.wire();
        let p6a = p5a + v1.parsed_json.wire();
        let p7a = p6a + v1.bcs.wire();
        let p8a = p7a + v1.event_index.wire();
        let p1b = v2.package_id.wire();
        let p2b = p1b + v2.module.wire();
        let p3b = p2b + v2.event_type.wire();
        let p4b = p3b + v2.sender.wire();
        let p5b = p4b + v2.transaction_module.wire();
        let p6b = p5b + v2.parsed_json.wire();
        let p7b = p6b + v2.bcs.wire();
        let p8b = p7b + v2.event_index.wire();
        assert(wire_at(s, at, p8a)) by {
            assert(p8a =~= v1.wire());
        }
        assert(wire_at(s, at, p8b)) by {
            assert(p8b =~= v2.wire());
        }
        lemma_wire_split(s, at, p7a, v1.event_index.wire());
        lemma_wire_split(s, at, p7b, v2.event_index.wire());
        lemma_wire_split(s, at, p6a, v1.bcs.wire());
        lemma_wire_split(s, at, p6b, v2.bcs.wire());
        lemma_wire_split(s, at, p5a, v1.parsed_json.wire());
        lemma_wire_split(s, at, p5b, v2.parsed_json.wire());
        lemma_wire_split(s, at, p4a, v1.transaction_module.wire());
        lemma_wire_split(s, at, p4b, v2.transaction_module.wire());
        lemma_wire_split(s, at, p3a, v1.sender.wire());
        lemma_wire_split(s, at, p3b, v2.sender.wire());
        lemma_wire_split(s, at, p2a, v1.event_type.wire());
        lemma_wire_split(s, at, p2b, v2.event_type.wire());
        lemma_wire_split(s, at, p1a, v1.module.wire());
        lemma_wire_split(s, at, p1b, v2.module.wire());
        <String as Wire>::wire_prefix_free(s, at, &v1.package_id, &v2.package_id);
        assert(p1a == p1b);
        <String as Wire>::wire_prefix_free(s, at + p1a.len(), &v1.module, &v2.module);
        assert(p2a == p2b);
        <String as Wire>::wire_prefix_free(s, at + p2a.len(), &v1.event_type, &v2.event_type);
        assert(p3a == p3b);
        <String as Wire>::wire_prefix_free(s, at + p3a.len(), &v1.sender, &v2.sender);
        assert(p4a == p4b);
        <String as Wire>::wire_prefix_free(s, at + p4a.len(), &v1.transaction_module, &v2.transaction_module);
        assert(p5a == p5b);
        <String as Wire>::wire_prefix_free(s, at + p5a.len(), &v1.parsed_json, &v2.parsed_json);
        assert(p6a == p6b);
        <String as Wire>::wire_prefix_free(s, at + p6a.len(), &v1.bcs, &v2.bcs);
        assert(p7a == p7b);
        <u64 as Wire>::wire_prefix_free(s, at + p7a.len(), &v1.event_index, &v2.event_index);
        assert(v1.wire() =~= v2.wire());
    }
}


/// No value of this type can begin here when its next part is missing.
#[verifier::rlimit(100)]
#[verifier::spinoff_prover]
proof fn lemma_certified_checkpoint_summary_stuck_1_at(s: Seq<char>, at: int, v: &CertifiedCheckpointSummary)
    requires
        0 <= at <= s.len(),
        forall|x: u64| !wire_at(s, at, x.wire()),
    ensures
        !wire_at(s, at, v.wire()),
{
    if wire_at(s, at, v.wire()) {
        let pa1 = v.sequence_number.wire();
        let pa2 = pa1 + v.checkpoint_digest.wire();
        let pa3 = pa2 + v.timestamp_ms.wire();
        let pa4 = pa3 + v.network_name.wire();
        let pa5 = pa4 + v.previous_checkpoint_digest.wire();
        let pa6 = pa5 + v.epoch.wire();
        let pa7 = pa6 + v.reference_gas_price.wire();
        let pa8 = pa7 + v.total_transactions.wire();
        let pa9 = pa8 + v.total_gas_units.wire();
        assert(wire_at(s, at, pa9)) by {
            assert(pa9 =~= v.wire());
        }
        lemma_wire_split(s, at, pa8, v.total_gas_units.wire());
        lemma_wire_split(s, at, pa7, v.total_transactions.wire());
        lemma_wire_split(s, at, pa6, v.reference_gas_price.wire());
        lemma_wire_split(s, at, pa5, v.epoch.wire());
        lemma_wire_split(s, at, pa4, v.previous_checkpoint_digest.wire());
        lemma_wire_split(s, at, pa3, v.network_name.wire());
        lemma_wire_split(s, at, pa2, v.timestamp_ms.wire());
        lemma_wire_split(s, at, pa1, v.checkpoint_digest.wire());
        assert(wire_at(s, at, v.sequence_number.wire()));
        assert(false);
    }
}

#[verifier::rlimit(100)]
#[verifier::spinoff_prover]
proof fn lemma_certified_checkpoint_summary_stuck_1(s: Seq<char>, at: int)
    requires
        0 <= at <= s.len(),
        forall|x: u64| !wire_at(s, at, x.wire()),
    ensures
        forall|v: CertifiedCheckpointSummary| !wire_at(s, at, v.wire()),
{
    assert forall|v: CertifiedCheckpointSummary| !wire_at(s, at, v.wire()) by {
        if wire_at(s, at, v.wire()) {
            lemma_certified_checkpoint_summary_stuck_1_at(s, at, &v);
        }
    }
}

/// No value of this type can begin here when its next part is missing.
#[verifier::rlimit(100)]
#[verifier::spinoff_prover]
proof fn lemma_certified_checkpoint_summary_stuck_2_at(s: Seq<char>, at: int, d1: &u64, e1: int, v: &CertifiedCheckpointSummary)
    requires
        0 <= at <= s.len(),
        at <= e1 <= s.len(),
        s.subrange(at, e1) == d1.wire(),
        forall|x: String| !wire_at(s, e1, x.wire()),
    ensures
        !wire_at(s, at, v.wire()),
{
    if wire_at(s, at, v.wire()) {
        let pa1 = v.sequence_number.wire();
        let pa2 = pa1 + v.checkpoint_digest.wire();
        let pa3 = pa2 + v.timestamp_ms.wire();
        let pa4 = pa3 + v.network_name.wire();
        let pa5 = pa4 + v.previous_checkpoint_digest.wire();
        let pa6 = pa5 + v.epoch.wire();
        let pa7 = pa6 + v.reference_gas_price.wire();
        let pa8 = pa7 + v.total_transactions.wire();
        let pa9 = pa8 + v.total_gas_units.wire();
        assert(wire_at(s, at, pa9)) by {
            assert(pa9 =~= v.wire());
        }
        lemma_wire_split(s, at, pa8, v.total_gas_units.wire());
        lemma_wire_split(s, at, pa7, v.total_transactions.wire());
        lemma_wire_split(s, at, pa6, v.reference_gas_price.wire());
        lemma_wire_split(s, at, pa5, v.epoch.wire());
        lemma_wire_split(s, at, pa4, v.previous_checkpoint_digest.wire());
        lemma_wire_split(s, at, pa3, v.network_name.wire());
        lemma_wire_split(s, at, pa2, v.timestamp_ms.wire());
        lemma_wire_split(s, at, pa1, v.checkpoint_digest.wire());
        assert(wire_at(s, at, d1.wire()));
        <u64 as Wire>::wire_prefix_free(s, at, d1, &v.sequence_number);
        assert(at + pa1.len() == e1);
        assert(wire_at(s, e1, v.checkpoint_digest.wire()));
        assert(false);
    }
}

#[verifier::rlimit(100)]
#[verifier::spinoff_prover]
proof fn lemma_certified_checkpoint_summary_stuck_2(s: Seq<char>, at: int, d1: &u64, e1: int)
    requires
        0 <= at <= s.len(),
        at <= e1 <= s.len(),
        s.subrange(at, e1) == d1.wire(),
        forall|x: String| !wire_at(s, e1, x.wire()),
    ensures
        forall|v: CertifiedCheckpointSummary| !wire_at(s, at, v.wire()),
{
    assert forall|v: CertifiedCheckpointSummary| !wire_at(s, at, v.wire()) by {
        if wire_at(s, at, v.wire()) {
            lemma_certified_checkpoint_summary_stuck_2_at(s, at, d1, e1, &v);
        }
    }
}

/// No value of this type can begin here when its next part is missing.
#[verifier::rlimit(100)]
#[verifier::spinoff_prover]
proof fn lemma_certified_checkpoint_summary_stuck_3_at(s: Seq<char>, at: int, d1: &u64, d2: &String, e1: int, e2: int, v: &CertifiedCheckpointSummary)
    requires
        0 <= at <= s.len(),
        at <= e1 <= s.len(),
        s.subrange(at, e1) == d1.wire(),
        e1 <= e2 <= s.len(),
        s.subrange(e1, e2) == d2.wire(),
        forall|x: u64| !wire_at(s, e2, x.wire()),
    ensures
        !wire_at(s, at, v.wire()),
{
    if wire_at(s, at, v.wire()) {
        let pa1 = v.sequence_number.wire();
        let pa2 = pa1 + v.checkpoint_digest.wire();
        let pa3 = pa2 + v.timestamp_ms.wire();
        let pa4 = pa3 + v.network_name.wire();
        let pa5 = pa4 + v.previous_checkpoint_digest.wire();
        let pa6 = pa5 + v.epoch.wire();
        let pa7 = pa6 + v.reference_gas_price.wire();
        let pa8 = pa7 + v.total_transactions.wire();
        let pa9 = pa8 + v.total_gas_units.wire();
        assert(wire_at(s, at, pa9)) by {
            assert(pa9 =~= v.wire());
        }
        lemma_wire_split(s, at, pa8, v.total_gas_units.wire());
        lemma_wire_split(s, at, pa7, v.total_transactions.wire());
        lemma_wire_split(s, at, pa6, v.reference_gas_price.wire());
        lemma_wire_split(s, at, pa5, v.epoch.wire());
        lemma_wire_split(s, at, pa4, v.previous_checkpoint_digest.wire());
        lemma_wire_split(s, at, pa3, v.network_name.wire());
        lemma_wire_split(s, at, pa2, v.timestamp_ms.wire());
        lemma_wire_split(s, at, pa1, v.checkpoint_digest.wire());
        assert(wire_at(s, at, d1.wire()));
        <u64 as Wire>::wire_prefix_free(s, at, d1, &v.sequence_number);
        assert(at + pa1.len() == e1);
        assert(wire_at(s, e1, d2.wire()));
        <String as Wire>::wire_prefix_free(s, e1, d2, &v.checkpoint_digest);
        assert(at + pa2.len() == e2);
        assert(wire_at(s, e2, v.timestamp_ms.wire()));
        assert(false);
    }
}

#[verifier::rlimit(100)]
#[verifier::spinoff_prover]
proof fn lemma_certified_checkpoint_summary_stuck_3(s: Seq<char>, at: int, d1: &u64, d2: &String, e1: int, e2: int)
    requires
        0 <= at <= s.len(),
        at <= e1 <= s.len(),
        s.subrange(at, e1) == d1.wire(),
        e1 <= e2 <= s.len(),
        s.subrange(e1, e2) == d2.wire(),
        forall|x: u64| !wire_at(s, e2, x.wire()),
    ensures
        forall|v: CertifiedCheckpointSummary| !wire_at(s, at, v.wire()),
{
    assert forall|v: CertifiedCheckpointSummary| !wire_at(s, at, v.wire()) by {
        if wire_at(s, at, v.wire()) {
            lemma_certified_checkpoint_summary_stuck_3_at(s, at, d1, d2, e1, e2, &v);
        }
    }
}

/// No value of this type can begin here when its next part is missing.
#[verifier::rlimit(100)]
#[verifier::spinoff_prover]
proof fn lemma_certified_checkpoint_summary_stuck_4_at(s: Seq<char>, at: int, d1: &u64, d2: &String, d3: &u64, e1: int, e2: int, e3: int, v: &CertifiedCheckpointSummary)
    requires
        0 <= at <= s.len(),
        at <= e1 <= s.len(),
        s.subrange(at, e1) == d1.wire(),
        e1 <= e2 <= s.len(),
        s.subrange(e1, e2) == d2.wire(),
        e2 <= e3 <= s.len(),
        s.subrange(e2, e3) == d3.wire(),
        forall|x: String| !wire_at(s, e3, x.wire()),
    ensures
        !wire_at(s, at, v.wire()),
{
    if wire_at(s, at, v.wire()) {
        let pa1 = v.sequence_number.wire();
        let pa2 = pa1 + v.checkpoint_digest.wire();
        let pa3 = pa2 + v.timestamp_ms.wire();
        let pa4 = pa3 + v.network_name.wire();
        let pa5 = pa4 + v.previous_checkpoint_digest.wire();
        let pa6 = pa5 + v.epoch.wire();
        let pa7 = pa6 + v.reference_gas_price.wire();
        let pa8 = pa7 + v.total_transactions.wire();
        let pa9 = pa8 + v.total_gas_units.wire();
        assert(wire_at(s, at, pa9)) by {
            assert(pa9 =~= v.wire());
        }
        lemma_wire_split(s, at, pa8, v.total_gas_units.wire());
        lemma_wire_split(s, at, pa7, v.total_transactions.wire());
        lemma_wire_split(s, at, pa6, v.reference_gas_price.wire());
        lemma_wire_split(s, at, pa5, v.epoch.wire());
        lemma_wire_split(s, at, pa4, v.previous_checkpoint_digest.wire());
        lemma_wire_split(s, at, pa3, v.network_name.wire());
        lemma_wire_split(s, at, pa2, v.timestamp_ms.wire());
        lemma_wire_split(s, at, pa1, v.checkpoint_digest.wire());
        assert(wire_at(s, at, d1.wire()));
        <u64 as Wire>::wire_prefix_free(s, at, d1, &v.sequence_number);
        assert(at + pa1.len() == e1);
        assert(wire_at(s, e1, d2.wire()));
        <String as Wire>::wire_prefix_free(s, e1, d2, &v.checkpoint_digest);
        assert(at + pa2.len() == e2);
        assert(wire_at(s, e2, d3.wire()));
        <u64 as Wire>::wire_prefix_free(s, e2, d3, &v.timestamp_ms);
        assert(at + pa3.len() == e3);
        assert(wire_at(s, e3, v.network_name.wire()));
        assert(false);
    }
}

#[verifier::rlimit(100)]
#[verifier::spinoff_prover]
proof fn lemma_certified_checkpoint_summary_stuck_4(s: Seq<char>, at: int, d1: &u64, d2: &String, d3: &u64, e1: int, e2: int, e3: int)
    requires
        0 <= at <= s.len(),
        at <= e1 <= s.len(),
        s.subrange(at, e1) == d1.wire(),
        e1 <= e2 <= s.len(),
        s.subrange(e1, e2) == d2.wire(),
        e2 <= e3 <= s.len(),
        s.subrange(e2, e3) == d3.wire(),
        forall|x: String| !wire_at(s, e3, x.wire()),
    ensures
        forall|v: CertifiedCheckpointSummary| !wire_at(s, at, v.wire()),
{
    assert forall|v: CertifiedCheckpointSummary| !wire_at(s, at, v.wire()) by {
        if wire_at(s, at, v.wire()) {
            lemma_certified_checkpoint_summary_stuck_4_at(s, at, d1, d2, d3, e1, e2, e3, &v);
        }
    }
}

/// No value of this type can begin here when its next part is missing.
#[verifier::rlimit(100)]
#[verifier::spinoff_prover]
proof fn lemma_certified_checkpoint_summary_stuck_5_at(s: Seq<char>, at: int, d1: &u64, d2: &String, d3: &u64, d4: &String, e1: int, e2: int, e3: int, e4: int, v: &CertifiedCheckpointSummary)
    requires
        0 <= at <= s.len(),
        at <= e1 <= s.len(),
        s.subrange(at, e1) == d1.wire(),
        e1 <= e2 <= s.len(),
        s.subrange(e1, e2) == d2.wire(),
        e2 <= e3 <= s.len(),
        s.subrange(e2, e3) == d3.wire(),
        e3 <= e4 <= s.len(),
        s.subrange(e3, e4) == d4.wire(),
        forall|x: Option<String>| !wire_at(s, e4, x.wire()),
    ensures
        !wire_at(s, at, v.wire()),
{
    if wire_at(s, at, v.wire()) {
        let pa1 = v.sequence_number.wire();
        let pa2 = pa1 + v.checkpoint_digest.wire();
        let pa3 = pa2 + v.timestamp_ms.wire();
        let pa4 = pa3 + v.network_name.wire();
        let pa5 = pa4 + v.previous_checkpoint_digest.wire();
        let pa6 = pa5 + v.epoch.wire();
        let pa7 = pa6 + v.reference_gas_price.wire();
        let pa8 = pa7 + v.total_transactions.wire();
        let pa9 = pa8 + v.total_gas_units.wire();
        assert(wire_at(s, at, pa9)) by {
            assert(pa9 =~= v.wire());
        }
        lemma_wire_split(s, at, pa8, v.total_gas_units.wire());
        lemma_wire_split(s, at, pa7, v.total_transactions.wire());
        lemma_wire_split(s, at, pa6, v.reference_gas_price.wire());
        lemma_wire_split(s, at, pa5, v.epoch.wire());
        lemma_wire_split(s, at, pa4, v.previous_checkpoint_digest.wire());
        lemma_wire_split(s, at, pa3, v.network_name.wire());
        lemma_wire_split(s, at, pa2, v.timestamp_ms.wire());
        lemma_wire_split(s, at, pa1, v.checkpoint_digest.wire());
        assert(wire_at(s, at, d1.wire()));
        <u64 as Wire>::wire_prefix_free(s, at, d1, &v.sequence_number);
        assert(at + pa1.len() == e1);
        assert(wire_at(s, e1, d2.wire()));
        <String as Wire>::wire_prefix_free(s, e1, d2, &v.checkpoint_digest);
        assert(at + pa2.len() == e2);
        assert(wire_at(s, e2, d3.wire()));
        <u64 as Wire>::wire_prefix_free(s, e2, d3, &v.timestamp_ms);
        assert(at + pa3.len() == e3);
        assert(wire_at(s, e3, d4.wire()));
        <String as Wire>::wire_prefix_free(s, e3, d4, &v.network_name);
        assert(at + pa4.len() == e4);
        assert(wire_at(s, e4, v.previous_checkpoint_digest.wire()));
        assert(false);
    }
}

#[verifier::rlimit(100)]
#[verifier::spinoff_prover]
proof fn lemma_certified_checkpoint_summary_stuck_5(s: Seq<char>, at: int, d1: &u64, d2: &String, d3: &u64, d4: &String, e1: int, e2: int, e3: int, e4: int)
    requires
        0 <= at <= s.len(),
        at <= e1 <= s.len(),
        s.subrange(at, e1) == d1.wire(),
        e1 <= e2 <= s.len(),
        s.subrange(e1, e2) == d2.wire(),
        e2 <= e3 <= s.len(),
        s.subrange(e2, e3) == d3.wire(),
        e3 <= e4 <= s.len(),
        s.subrange(e3, e4) == d4.wire(),
        forall|x: Option<String>| !wire_at(s, e4, x.wire()),
    ensures
        forall|v: CertifiedCheckpointSummary| !wire_at(s, at, v.wire()),
{
    assert forall|v: CertifiedCheckpointSummary| !wire_at(s, at, v.wire()) by {
        if wire_at(s, at, v.wire()) {
            lemma_certified_checkpoint_summary_stuck_5_at(s, at, d1, d2, d3, d4, e1, e2, e3, e4, &v);
        }
    }
}

/// No value of this type can begin here when its next part is missing.
#[verifier::rlimit(100)]
#[verifier::spinoff_prover]
proof fn lemma_certified_checkpoint_summary_stuck_6_at(s: Seq<char>, at: int, d1: &u64, d2: &String, d3: &u64, d4: &String, d5: &Option<String>, e1: int, e2: int, e3: int, e4: int, e5: int, v: &CertifiedCheckpointSummary)
    requires
        0 <= at <= s.len(),
        at <= e1 <= s.len(),
        s.subrange(at, e1) == d1.wire(),
        e1 <= e2 <= s.len(),
        s.subrange(e1, e2) == d2.wire(),
        e2 <= e3 <= s.len(),
        s.subrange(e2, e3) == d3.wire(),
        e3 <= e4 <= s.len(),
        s.subrange(e3, e4) == d4.wire(),
        e4 <= e5 <= s.len(),
        s.subrange(e4, e5) == d5.wire(),
        forall|x: u64| !wire_at(s, e5, x.wire()),
    ensures
        !wire_at(s, at, v.wire()),
{
    if wire_at(s, at, v.wire()) {
        let pa1 = v.sequence_number.wire();
        let pa2 = pa1 + v.checkpoint_digest.wire();
        let pa3 = pa2 + v.timestamp_ms.wire();
        let pa4 = pa3 + v.network_name.wire();
        let pa5 = pa4 + v.previous_checkpoint_digest.wire();
        let pa6 = pa5 + v.epoch.wire();
        let pa7 = pa6 + v.reference_gas_price.wire();
        let pa8 = pa7 + v.total_transactions.wire();
        let pa9 = pa8 + v.total_gas_units.wire();
        assert(wire_at(s, at, pa9)) by {
            assert(pa9 =~= v.wire());
        }
        lemma_wire_split(s, at, pa8, v.total_gas_units.wire());
        lemma_wire_split(s, at, pa7, v.total_transactions.wire());
        lemma_wire_split(s, at, pa6, v.reference_gas_price.wire());
        lemma_wire_split(s, at, pa5, v.epoch.wire());
        lemma_wire_split(s, at, pa4, v.previous_checkpoint_digest.wire());
        lemma_wire_split(s, at, pa3, v.network_name.wire());
        lemma_wire_split(s, at, pa2, v.timestamp_ms.wire());
        lemma_wire_split(s, at, pa1, v.checkpoint_digest.wire());
        assert(wire_at(s, at, d1.wire()));
        <u64 as Wire>::wire_prefix_free(s, at, d1, &v.sequence_number);
        assert(at + pa1.len() == e1);
        assert(wire_at(s, e1, d2.wire()));
        <String as Wire>::wire_prefix_free(s, e1, d2, &v.checkpoint_digest);
        assert(at + pa2.len() == e2);
        assert(wire_at(s, e2, d3.wire()));
        <u64 as Wire>::wire_prefix_free(s, e2, d3, &v.timestamp_ms);
        assert(at + pa3.len() == e3);
        assert(wire_at(s, e3, d4.wire()));
        <String as Wire>::wire_prefix_free(s, e3, d4, &v.network_name);
        assert(at + pa4.len() == e4);
        assert(wire_at(s, e4, d5.wire()));
        <Option<String> as Wire>::wire_prefix_free(s, e4, d5, &v.previous_checkpoint_digest);
        assert(at + pa5.len() == e5);
        assert(wire_at(s, e5, v.epoch.wire()));
        assert(false);
    }
}

#[verifier::rlimit(100)]
#[verifier::spinoff_prover]
proof fn lemma_certified_checkpoint_summary_stuck_6(s: Seq<char>, at: int, d1: &u64, d2: &String, d3: &u64, d4: &String, d5: &Option<String>, e1: int, e2: int, e3: int, e4: int, e5: int)
    requires
        0 <= at <= s.len(),
        at <= e1 <= s.len(),
        s.subrange(at, e1) == d1.wire(),
        e1 <= e2 <= s.len(),
        s.subrange(e1, e2) == d2.wire(),
        e2 <= e3 <= s.len(),
        s.subrange(e2, e3) == d3.wire(),
        e3 <= e4 <= s.len(),
        s.subrange(e3, e4) == d4.wire(),
        e4 <= e5 <= s.len(),
        s.subrange(e4, e5) == d5.wire(),
        forall|x: u64| !wire_at(s, e5, x.wire()),
    ensures
        forall|v: CertifiedCheckpointSummary| !wire_at(s, at, v.wire()),
{
    assert forall|v: CertifiedCheckpointSummary| !wire_at(s, at, v.wire()) by {
        if wire_at(s, at, v.wire()) {
            lemma_certified_checkpoint_summary_stuck_6_at(s, at, d1, d2, d3, d4, d5, e1, e2, e3, e4, e5, &v);
        }
    }
}

/// No value of this type can begin here when its next part is missing.
#[verifier::rlimit(100)]
#[verifier::spinoff_prover]
proof fn lemma_certified_checkpoint_summary_stuck_7_at(s: Seq<char>, at: int, d1: &u64, d2: &String, d3: &u64, d4: &String, d5: &Option<String>, d6: &u64, e1: int, e2: int, e3: int, e4: int, e5: int, e6: int, v: &CertifiedCheckpointSummary)
    requires
        0 <= at <= s.len(),
        at <= e1 <= s.len(),
        s.subrange(at, e1) == d1.wire(),
        e1 <= e2 <= s.len(),
        s.subrange(e1, e2) == d2.wire(),
        e2 <= e3 <= s.len(),
        s.subrange(e2, e3) == d3.wire(),
        e3 <= e4 <= s.len(),
        s.subrange(e3, e4) == d4.wire(),
        e4 <= e5 <= s.len(),
        s.subrange(e4, e5) == d5.wire(),
        e5 <= e6 <= s.len(),
        s.subrange(e5, e6) == d6.wire(),
        forall|x: u64| !wire_at(s, e6, x.wire()),
    ensures
        !wire_at(s, at, v.wire()),
{
    if wire_at(s, at, v.wire()) {
        let pa1 = v.sequence_number.wire();
        let pa2 = pa1 + v.checkpoint_digest.wire();
        let pa3 = pa2 + v.timestamp_ms.wire();
        let pa4 = pa3 + v.network_name.wire();
        let pa5 = pa4 + v.previous_checkpoint_digest.wire();
        let pa6 = pa5 + v.epoch.wire();
        let pa7 = pa6 + v.reference_gas_price.wire();
        let pa8 = pa7 + v.total_transactions.wire();
        let pa9 = pa8 + v.total_gas_units.wire();
        assert(wire_at(s, at, pa9)) by {
            assert(pa9 =~= v.wire());
        }
        lemma_wire_split(s, at, pa8, v.total_gas_units.wire());
        lemma_wire_split(s, at, pa7, v.total_transactions.wire());
        lemma_wire_split(s, at, pa6, v.reference_gas_price.wire());
        lemma_wire_split(s, at, pa5, v.epoch.wire());
        lemma_wire_split(s, at, pa4, v.previous_checkpoint_digest.wire());
        lemma_wire_split(s, at, pa3, v.network_name.wire());
        lemma_wire_split(s, at, pa2, v.timestamp_ms.wire());
        lemma_wire_split(s, at, pa1, v.checkpoint_digest.wire());
        assert(wire_at(s, at, d1.wire()));
        <u64 as Wire>::wire_prefix_free(s, at, d1, &v.sequence_number);
        assert(at + pa1.len() == e1);
        assert(wire_at(s, e1, d2.wire()));
        <String as Wire>::wire_prefix_free(s, e1, d2, &v.checkpoint_digest);
        assert(at + pa2.len() == e2);
        assert(wire_at(s, e2, d3.wire()));
        <u64 as Wire>::wire_prefix_free(s, e2, d3, &v.timestamp_ms);
        assert(at + pa3.len() == e3);
        assert(wire_at(s, e3, d4.wire()));
        <String as Wire>::wire_prefix_free(s, e3, d4, &v.network_name);
        assert(at + pa4.len() == e4);
        assert(wire_at(s, e4, d5.wire()));
        <Option<String> as Wire>::wire_prefix_free(s, e4, d5, &v.previous_checkpoint_digest);
        assert(at + pa5.len() == e5);
        assert(wire_at(s, e5, d6.wire()));
        <u64 as Wire>::wire_prefix_free(s, e5, d6, &v.epoch);
        assert(at + pa6.len() == e6);
        assert(wire_at(s, e6, v.reference_gas_price.wire()));
        assert(false);
    }
}

#[verifier::rlimit(100)]
#[verifier::spinoff_prover]
proof fn lemma_certified_checkpoint_summary_stuck_7(s: Seq<char>, at: int, d1: &u64, d2: &String, d3: &u64, d4: &String, d5: &Option<String>, d6: &u64, e1: int, e2: int, e3: int, e4: int, e5: int, e6: int)
    requires
        0 <= at <= s.len(),
        at <= e1 <= s.len(),
        s.subrange(at, e1) == d1.wire(),
        e1 <= e2 <= s.len(),
        s.subrange(e1, e2) == d2.wire(),
        e2 <= e3 <= s.len(),
        s.subrange(e2, e3) == d3.wire(),
        e3 <= e4 <= s.len(),
        s.subrange(e3, e4) == d4.wire(),
        e4 <= e5 <= s.len(),
        s.subrange(e4, e5) == d5.wire(),
        e5 <= e6 <= s.len(),
        s.subrange(e5, e6) == d6.wire(),
        forall|x: u64| !wire_at(s, e6, x.wire()),
    ensures
        forall|v: CertifiedCheckpointSummary| !wire_at(s, at, v.wire()),
{
    assert forall|v: CertifiedCheckpointSummary| !wire_at(s, at, v.wire()) by {
        if wire_at(s, at, v.wire()) {
            lemma_certified_checkpoint_summary_stuck_7_at(s, at, d1, d2, d3, d4, d5, d6, e1, e2, e3, e4, e5, e6, &v);
        }
    }
}

/// No value of this type can begin here when its next part is missing.
#[verifier::rlimit(100)]
#[verifier::spinoff_prover]
proof fn lemma_certified_checkpoint_summary_stuck_8_at(s: Seq<char>, at: int, d1: &u64, d2: &String, d3: &u64, d4: &String, d5: &Option<String>, d6: &u64, d7: &u64, e1: int, e2: int, e3: int, e4: int, e5: int, e6: int, e7: int, v: &CertifiedCheckpointSummary)
    requires
        0 <= at <= s.len(),
        at <= e1 <= s.len(),
        s.subrange(at, e1) == d1.wire(),
        e1 <= e2 <= s.len(),
        s.subrange(e1, e2) == d2.wire(),
        e2 <= e3 <= s.len(),
        s.subrange(e2, e3) == d3.wire(),
        e3 <= e4 <= s.len(),
        s.subrange(e3, e4) == d4.wire(),
        e4 <= e5 <= s.len(),
        s.subrange(e4, e5) == d5.wire(),
        e5 <= e6 <= s.len(),
        s.subrange(e5, e6) == d6.wire(),
        e6 <= e7 <= s.len(),
        s.subrange(e6, e7) == d7.wire(),
        forall|x: u64| !wire_at(s, e7, x.wire()),
    ensures
        !wire_at(s, at, v.wire()),
{
    if wire_at(s, at, v.wire()) {
        let pa1 = v.sequence_number.wire();
        let pa2 = pa1 + v.checkpoint_digest.wire();
        let pa3 = pa2 + v.timestamp_ms.wire();
        let pa4 = pa3 + v.network_name.wire();
        let pa5 = pa4 + v.previous_checkpoint_digest.wire();
        let pa6 = pa5 + v.epoch.wire();
        let pa7 = pa6 + v.reference_gas_price.wire();
        let pa8 = pa7 + v.total_transactions.wire();
        let pa9 = pa8 + v.total_gas_units.wire();
        assert(wire_at(s, at, pa9)) by {
            assert(pa9 =~= v.wire());
        }
        lemma_wire_split(s, at, pa8, v.total_gas_units.wire());
        lemma_wire_split(s, at, pa7, v.total_transactions.wire());
        lemma_wire_split(s, at, pa6, v.reference_gas_price.wire());
        lemma_wire_split(s, at, pa5, v.epoch.wire());
        lemma_wire_split(s, at, pa4, v.previous_checkpoint_digest.wire());
        lemma_wire_split(s, at, pa3, v.network_name.wire());
        lemma_wire_split(s, at, pa2, v.timestamp_ms.wire());
        lemma_wire_split(s, at, pa1, v.checkpoint_digest.wire());
        assert(wire_at(s, at, d1.wire()));
        <u64 as Wire>::wire_prefix_free(s, at, d1, &v.sequence_number);
        assert(at + pa1.len() == e1);
        assert(wire_at(s, e1, d2.wire()));
        <String as Wire>::wire_prefix_free(s, e1, d2, &v.checkpoint_digest);
        assert(at + pa2.len() == e2);
        assert(wire_at(s, e2, d3.wire()));
        <u64 as Wire>::wire_prefix_free(s, e2, d3, &v.timestamp_ms);
        assert(at + pa3.len() == e3);
        assert(wire_at(s, e3, d4.wire()));
        <String as Wire>::wire_prefix_free(s, e3, d4, &v.network_name);
        assert(at + pa4.len() == e4);
        assert(wire_at(s, e4, d5.wire()));
        <Option<String> as Wire>::wire_prefix_free(s, e4, d5, &v.previous_checkpoint_digest);
        assert(at + pa5.len() == e5);
        assert(wire_at(s, e5, d6.wire()));
        <u64 as Wire>::wire_prefix_free(s, e5, d6, &v.epoch);
        assert(at + pa6.len() == e6);
        assert(wire_at(s, e6, d7.wire()));
        <u64 as Wire>::wire_prefix_free(s, e6, d7, &v.reference_gas_price);
        assert(at + pa7.len() == e7);
        assert(wire_at(s, e7, v.total_transactions.wire()));
        assert(false);
    }
}

#[verifier::rlimit(100)]
#[verifier::spinoff_prover]
proof fn lemma_certified_checkpoint_summary_stuck_8(s: Seq<char>, at: int, d1: &u64, d2: &String, d3: &u64, d4: &String, d5: &Option<String>, d6: &u64, d7: &u64, e1: int, e2: int, e3: int, e4: int, e5: int, e6: int, e7: int)
    requires
        0 <= at <= s.len(),
        at <= e1 <= s.len(),
        s.subrange(at, e1) == d1.wire(),
        e1 <= e2 <= s.len(),
        s.subrange(e1, e2) == d2.wire(),
        e2 <= e3 <= s.len(),
        s.subrange(e2, e3) == d3.wire(),
        e3 <= e4 <= s.len(),
        s.subrange(e3, e4) == d4.wire(),
        e4 <= e5 <= s.len(),
        s.subrange(e4, e5) == d5.wire(),
        e5 <= e6 <= s.len(),
        s.subrange(e5, e6) == d6.wire(),
        e6 <= e7 <= s.len(),
        s.subrange(e6, e7) == d7.wire(),
        forall|x: u64| !wire_at(s, e7, x.wire()),
    ensures
        forall|v: CertifiedCheckpointSummary| !wire_at(s, at, v.wire()),
{
    assert forall|v: CertifiedCheckpointSummary| !wire_at(s, at, v.wire()) by {
        if wire_at(s, at, v.wire()) {
            lemma_certified_checkpoint_summary_stuck_8_at(s, at, d1, d2, d3, d4, d5, d6, d7, e1, e2, e3, e4, e5, e6, e7, &v);
        }
    }
}

/// No value of this type can begin here when its next part is missing.
#[verifier::rlimit(100)]
#[verifier::spinoff_prover]
proof fn lemma_certified_checkpoint_summary_stuck_9_at(s: Seq<char>, at: int, d1: &u64, d2: &String, d3: &u64, d4: &String, d5: &Option<String>, d6: &u64, d7: &u64, d8: &u64, e1: int, e2: int, e3: int, e4: int, e5: int, e6: int, e7: int, e8: int, v: &CertifiedCheckpointSummary)
    requires
        0 <= at <= s.len(),
        at <= e1 <= s.len(),
        s.subrange(at, e1) == d1.wire(),
        e1 <= e2 <= s.len(),
        s.subrange(e1, e2) == d2.wire(),
        e2 <= e3 <= s.len(),
        s.subrange(e2, e3) == d3.wire(),
        e3 <= e4 <= s.len(),
        s.subrange(e3, e4) == d4.wire(),
        e4 <= e5 <= s.len(),
        s.subrange(e4, e5) == d5.wire(),
        e5 <= e6 <= s.len(),
        s.subrange(e5, e6) == d6.wire(),
        e6 <= e7 <= s.len(),
        s.subrange(e6, e7) == d7.wire(),
        e7 <= e8 <= s.len(),
        s.subrange(e7, e8) == d8.wire(),
        forall|x: u64| !wire_at(s, e8, x.wire()),
    ensures
        !wire_at(s, at, v.wire()),
{
    if wire_at(s, at, v.wire()) {
        let pa1 = v.sequence_number.wire();
        let pa2 = pa1 + v.checkpoint_digest.wire();
        let pa3 = pa2 + v.timestamp_ms.wire();
        let pa4 = pa3 + v.network_name.wire();
        let pa5 = pa4 + v.previous_checkpoint_digest.wire();
        let pa6 = pa5 + v.epoch.wire();
        let pa7 = pa6 + v.reference_gas_price.wire();
        let pa8 = pa7 + v.total_transactions.wire();
        let pa9 = pa8 + v.total_gas_units.wire();
        assert(wire_at(s, at, pa9)) by {
            assert(pa9 =~= v.wire());
        }
        lemma_wire_split(s, at, pa8, v.total_gas_units.wire());
        lemma_wire_split(s, at, pa7, v.total_transactions.wire());
        lemma_wire_split(s, at, pa6, v.reference_gas_price.wire());
        lemma_wire_split(s, at, pa5, v.epoch.wire());
        lemma_wire_split(s, at, pa4, v.previous_checkpoint_digest.wire());
        lemma_wire_split(s, at, pa3, v.network_name.wire());
        lemma_wire_split(s, at, pa2, v.timestamp_ms.wire());
        lemma_wire_split(s, at, pa1, v.checkpoint_digest.wire());
        assert(wire_at(s, at, d1.wire()));
        <u64 as Wire>::wire_prefix_free(s, at, d1, &v.sequence_number);
        assert(at + pa1.len() == e1);
        assert(wire_at(s, e1, d2.wire()));
        <String as Wire>::wire_prefix_free(s, e1, d2, &v.checkpoint_digest);
        assert(at + pa2.len() == e2);
        assert(wire_at(s, e2, d3.wire()));
        <u64 as Wire>::wire_prefix_free(s, e2, d3, &v.timestamp_ms);
        assert(at + pa3.len() == e3);
        assert(wire_at(s, e3, d4.wire()));
        <String as Wire>::wire_prefix_free(s, e3, d4, &v.network_name);
        assert(at + pa4.len() == e4);
        assert(wire_at(s, e4, d5.wire()));
        <Option<String> as Wire>::wire_prefix_free(s, e4, d5, &v.previous_checkpoint_digest);
        assert(at + pa5.len() == e5);
        assert(wire_at(s, e5, d6.wire()));
        <u64 as Wire>::wire_prefix_free(s, e5, d6, &v.epoch);
        assert(at + pa6.len() == e6);
        assert(wire_at(s, e6, d7.wire()));
        <u64 as Wire>::wire_prefix_free(s, e6, d7, &v.reference_gas_price);
        assert(at + pa7.len() == e7);
        assert(wire_at(s, e7, d8.wire()));
        <u64 as Wire>::wire_prefix_free(s, e7, d8, &v.total_transactions);
        assert(at + pa8.len() == e8);
        assert(wire_at(s, e8, v.total_gas_units.wire()));
        assert(false);
    }
}

#[verifier::rlimit(100)]
#[verifier::spinoff_prover]
proof fn lemma_certified_checkpoint_summary_stuck_9(s: Seq<char>, at: int, d1: &u64, d2: &String, d3: &u64, d4: &String, d5: &Option<String>, d6: &u64, d7: &u64, d8: &u64, e1: int, e2: int, e3: int, e4: int, e5: int, e6: int, e7: int, e8: int)
    requires
        0 <= at <= s.len(),
        at <= e1 <= s.len(),
        s.subrange(at, e1) == d1.wire(),
        e1 <= e2 <= s.len(),
        s.subrange(e1, e2) == d2.wire(),
        e2 <= e3 <= s.len(),
        s.subrange(e2, e3) == d3.wire(),
        e3 <= e4 <= s.len(),
        s.subrange(e3, e4) == d4.wire(),
        e4 <= e5 <= s.len(),
        s.subrange(e4, e5) == d5.wire(),
        e5 <= e6 <= s.len(),
        s.subrange(e5, e6) == d6.wire(),
        e6 <= e7 <= s.len(),
        s.subrange(e6, e7) == d7.wire(),
        e7 <= e8 <= s.len(),
        s.subrange(e7, e8) == d8.wire(),
        forall|x: u64| !wire_at(s, e8, x.wire()),
    ensures
        forall|v: CertifiedCheckpointSummary| !wire_at(s, at, v.wire()),
{
    assert forall|v: CertifiedCheckpointSummary| !wire_at(s, at, v.wire()) by {
        if wire_at(s, at, v.wire()) {
            lemma_certified_checkpoint_summary_stuck_9_at(s, at, d1, d2, d3, d4, d5, d6, d7, d8, e1, e2, e3, e4, e5, e6, e7, e8, &v);
        }
    }
}

impl Wire for CertifiedCheckpointSummary {
    open spec fn wire(&self) -> Seq<char> {
        self.sequence_number.wire() + self.checkpoint_digest.wire() + self.timestamp_ms.wire() + self.network_name.wire() + self.previous_checkpoint_digest.wire() + self.epoch.wire() + self.reference_gas_price.wire() + self.total_transactions.wire() + self.total_gas_units.wire()
    }

    open spec fn eqv(&self, other: &Self) -> bool {
        self.sequence_number == other.sequence_number && self.checkpoint_digest.eqv(&other.checkpoint_digest) && self.timestamp_ms == other.timestamp_ms && self.network_name.eqv(&other.network_name) && self.previous_checkpoint_digest.eqv(&other.previous_checkpoint_digest) && self.epoch == other.epoch && self.reference_gas_price == other.reference_gas_price && self.total_transactions == other.total_transactions && self.total_gas_units == other.total_gas_units
    }

    proof fn wire_nonempty(v: &Self) {
        <u64 as Wire>::wire_nonempty(&v.sequence_number);
    }

    #[verifier::rlimit(100)]
    #[verifier::spinoff_prover]
    fn write(&self, out: &mut String) {
        self.sequence_number.write(out);
        self.checkpoint_digest.write(out);
        self.timestamp_ms.write(out);
        self.network_name.write(out);
        self.previous_checkpoint_digest.write(out);
        self.epoch.write(out);
        self.reference_gas_price.write(out);
        self.total_transactions.write(out);
        self.total_gas_units.write(out);
        proof {
            assert(final(out)@ =~= old(out)@ + self.wire());
        }
    }

    #[verifier::rlimit(100)]
    #[verifier::spinoff_prover]
    fn read(s: &str, at: usize) -> (r: Option<(Self, usize)>) {
        let (sequence_number, e1) = match <u64 as Wire>::read(s, at) {
            Some(p) => p,
            None => {
                proof {
                    lemma_certified_checkpoint_summary_stuck_1(s@, at as int);
                }
                return None;
            },
        };
        let (checkpoint_digest, e2) = match <String as Wire>::read(s, e1) {
            Some(p) => p,
            None => {
                proof {
                    lemma_certified_checkpoint_summary_stuck_2(s@, at as int, &sequence_number, e1 as int);
                }
                return None;
            },
        };
        let (timestamp_ms, e3) = match <u64 as Wire>::read(s, e2) {
            Some(p) => p,
            None => {
                proof {
                    lemma_certified_checkpoint_summary_stuck_3(s@, at as int, &sequence_number, &checkpoint_digest, e1 as int, e2 as int);
                }
                return None;
            },
        };
        let (network_name, e4) = match <String as Wire>::read(s, e3) {
            Some(p) => p,
            None => {
                proof {
                    lemma_certified_checkpoint_summary_stuck_4(s@, at as int, &sequence_number, &checkpoint_digest, &timestamp_ms, e1 as int, e2 as int, e3 as int);
                }
                return None;
            },
        };
        let (previous_checkpoint_digest, e5) = match <Option<String> as Wire>::read(s, e4) {
            Some(p) => p,
            None => {
                proof {
                    lemma_certified_checkpoint_summary_stuck_5(s@, at as int, &sequence_number, &checkpoint_digest, &timestamp_ms, &network_name, e1 as int, e2 as int, e3 as int, e4 as int);
                }
                return None;
            },
        };
        let (epoch, e6) = match <u64 as Wire>::read(s, e5) {
            Some(p) => p,
            None => {
                proof {
                    lemma_certified_checkpoint_summary_stuck_6(s@, at as int, &sequence_number, &checkpoint_digest, &timestamp_ms, &network_name, &previous_checkpoint_digest, e1 as int, e2 as int, e3 as int, e4 as int, e5 as int);
                }
                return None;
            },
        };
        let (reference_gas_price, e7) = match <u64 as Wire>::read(s, e6) {
            Some(p) => p,
            None => {
                proof {
                    lemma_certified_checkpoint_summary_stuck_7(s@, at as int, &sequence_number, &checkpoint_digest, &timestamp_ms, &network_name, &previous_checkpoint_digest, &epoch, e1 as int, e2 as int, e3 as int, e4 as int, e5 as int, e6 as int);
                }
                return None;
            },
        };
        let (total_transactions, e8) = match <u64 as Wire>::read(s, e7) {
            Some(p) => p,
            None => {
                proof {
                    lemma_certified_checkpoint_summary_stuck_8(s@, at as int, &sequence_number, &checkpoint_digest, &timestamp_ms, &network_name, &previous_checkpoint_digest, &epoch, &reference_gas_price, e1 as int, e2 as int, e3 as int, e4 as int, e5 as int, e6 as int, e7 as int);
                }
                return None;
            },
        };
        let (total_gas_units, e9) = match <u64 as Wire>::read(s, e8) {
            Some(p) => p,
            None => {
                proof {
                    lemma_certified_checkpoint_summary_stuck_9(s@, at as int, &sequence_number, &checkpoint_digest, &timestamp_ms, &network_name, &previous_checkpoint_digest, &epoch, &reference_gas_price, &total_transactions, e1 as int, e2 as int, e3 as int, e4 as int, e5 as int, e6 as int, e7 as int, e8 as int);
                }
                return None;
            },
        };
        let v = CertifiedCheckpointSummary { sequence_number, checkpoint_digest, timestamp_ms, network_name, previous_checkpoint_digest, epoch, reference_gas_price, total_transactions, total_gas_units };
        proof {
            assert(s@.subrange(at as int, e9 as int) =~= v.wire());
        }
        Some((v, e9))
    }

    #[verifier::rlimit(100)]
    #[verifier::spinoff_prover]
    proof fn wire_prefix_free(s: Seq<char>, at: int, v1: &Self, v2: &Self) {
        let p1a = v1.sequence_number.wire();
        let p2a = p1a + v1.checkpoint_digest.wire();
        let p3a = p2a + v1.timestamp_ms.wire();
        let p4a = p3a + v1.network_name.wire();
        let p5a = p4a + v1.previous_checkpoint_digest.wire();
        let p6a = p5a + v1.epoch.wire();
        let p7a = p6a + v1.reference_gas_price.wire();
        let p8a = p7a + v1.total_transactions.wire();
        let p9a = p8a + v1.total_gas_units.wire();
        let p1b = v2.sequence_number.wire();
        let p2b = p1b + v2.checkpoint_digest.wire();
        let p3b = p2b + v2.timestamp_ms.wire();
        let p4b = p3b + v2.network_name.wire();
        let p5b = p4b + v2.previous_checkpoint_digest.wire();
        let p6b = p5b + v2.epoch.wire();
        let p7b = p6b + v2.reference_gas_price.wire();
        let p8b = p7b + v2.total_transactions.wire();
        let p9b = p8b + v2.total_gas_units.wire();
        assert(wire_at(s, at, p9a)) by {
            assert(p9a =~= v1.wire());
        }
        assert(wire_at(s, at, p9b)) by {
            assert(p9b =~= v2.wire());
        }
        lemma_wire_split(s, at, p8a, v1.total_gas_units.wire());
        lemma_wire_split(s, at, p8b, v2.total_gas_units.wire());
        lemma_wire_split(s, at, p7a, v1.total_transactions.wire());
        lemma_wire_split(s, at, p7b, v2.total_transactions.wire());
        lemma_wire_split(s, at, p6a, v1.reference_gas_price.wire());
        lemma_wire_split(s, at, p6b, v2.reference_gas_price.wire());
        lemma_wire_split(s, at, p5a, v1.epoch.wire());
        lemma_wire_split(s, at, p5b, v2.epoch.wire());
        lemma_wire_split(s, at, p4a, v1.previous_checkpoint_digest.wire());
        lemma_wire_split(s, at, p4b, v2.previous_checkpoint_digest.wire());
        lemma_wire_split(s, at, p3a, v1.network_name.wire());
        lemma_wire_split(s, at, p3b, v2.network_name.wire());
        lemma_wire_split(s, at, p2a, v1.timestamp_ms.wire());
        lemma_wire_split(s, at, p2b, v2.timestamp_ms.wire());
        lemma_wire_split(s, at, p1a, v1.checkpoint_digest.wire());
        lemma_wire_split(s, at, p1b, v2.checkpoint_digest.wire());
        <u64 as Wire>::wire_prefix_free(s, at, &v1.sequence_number, &v2.sequence_number);
        assert(p1a == p1b);
        <String as Wire>::wire_prefix_free(s, at + p1a.len(), &v1.checkpoint_digest, &v2.checkpoint_digest);
        assert(p2a == p2b);
        <u64 as Wire>::wire_prefix_free(s, at + p2a.len(), &v1.timestamp_ms, &v2.timestamp_ms);
        assert(p3a == p3b);
        <String as Wire>::wire_prefix_free(s, at + p3a.len(), &v1.network_name, &v2.network_name);
        assert(p4a == p4b);
        <Option<String> as Wire>::wire_prefix_free(s, at + p4a.len(), &v1.previous_checkpoint_digest, &v2.previous_checkpoint_digest);
        assert(p5a == p5b);
        <u64 as Wire>::wire_prefix_free(s, at + p5a.len(), &v1.epoch, &v2.epoch);
        assert(p6a == p6b);
        <u64 as Wire>::wire_prefix_free(s, at + p6a.len(), &v1.reference_gas_price, &v2.reference_gas_price);
        assert(p7a == p7b);
        <u64 as Wire>::wire_prefix_free(s, at + p7a.len(), &v1.total_transactions, &v2.total_transactions);
        assert(p8a == p8b);
        <u64 as Wire>::wire_prefix_free(s, at + p8a.len(), &v1.total_gas_units, &v2.total_gas_units);
        assert(v1.wire() =~= v2.wire());
    }
}


/// No value of this type can begin here when its next part is missing.
#[verifier::rlimit(100)]
#[verifier::spinoff_prover]
proof fn lemma_transaction_effects_stuck_1_at(s: Seq<char>, at: int, v: &TransactionEffects)
    requires
        0 <= at <= s.len(),
        forall|x: TransactionStatus| !wire_at(s, at, x.wire()),
    ensures
        !wire_at(s, at, v.wire()),
{
    if wire_at(s, at, v.wire()) {
        let pa1 = v.status.wire();
        let pa2 = pa1 + v.gas_used.wire();
        let pa3 = pa2 + v.modified_at_versions.wire();
        let pa4 = pa3 + v.created.wire();
        let pa5 = pa4 + v.deleted.wire();
        let pa6 = pa5 + v.shared_objects.wire();
        let pa7 = pa6 + v.dependencies.wire();
        assert(wire_at(s, at, pa7)) by {
            assert(pa7 =~= v.wire());
        }
        lemma_wire_split(s, at, pa6, v.dependencies.wire());
        lemma_wire_split(s, at, pa5, v.shared_objects.wire());
        lemma_wire_split(s, at, pa4, v.deleted.wire());
        lemma_wire_split(s, at, pa3, v.created.wire());
        lemma_wire_split(s, at, pa2, v.modified_at_versions.wire());
        lemma_wire_split(s, at, pa1, v.gas_used.wire());
        assert(wire_at(s, at, v.status.wire()));
        assert(false);
    }
}

#[verifier::rlimit(100)]
#[verifier::spinoff_prover]
proof fn lemma_transaction_effects_stuck_1(s: Seq<char>, at: int)
    requires
        0 <= at <= s.len(),
        forall|x: TransactionStatus| !wire_at(s, at, x.wire()),
    ensures
        forall|v: TransactionEffects| !wire_at(s, at, v.wire()),
{
    assert forall|v: TransactionEffects| !wire_at(s, at, v.wire()) by {
        if wire_at(s, at, v.wire()) {
            lemma_transaction_effects_stuck_1_at(s, at, &v);
        }
    }
}

/// No value of this type can begin here when its next part is missing.
#[verifier::rlimit(100)]
#[verifier::spinoff_prover]
proof fn lemma_transaction_effects_stuck_2_at(s: Seq<char>, at: int, d1: &TransactionStatus, e1: int, v: &TransactionEffects)
    requires
        0 <= at <= s.len(),
        at <= e1 <= s.len(),
        s.subrange(at, e1) == d1.wire(),
        forall|x: GasEffects| !wire_at(s, e1, x.wire()),
    ensures
        !wire_at(s, at, v.wire()),
{
    if wire_at(s, at, v.wire()) {
        let pa1 = v.status.wire();
        let pa2 = pa1 + v.gas_used.wire();
        let pa3 = pa2 + v.modified_at_versions.wire();
        let pa4 = pa3 + v.created.wire();
        let pa5 = pa4 + v.deleted.wire();
        let pa6 = pa5 + v.shared_objects.wire();
        let pa7 = pa6 + v.dependencies.wire();
        assert(wire_at(s, at, pa7)) by {
            assert(pa7 =~= v.wire());
        }
        lemma_wire_split(s, at, pa6, v.dependencies.wire());
        lemma_wire_split(s, at, pa5, v.shared_objects.wire());
        lemma_wire_split(s, at, pa4, v.deleted.wire());
        lemma_wire_split(s, at, pa3, v.created.wire());
        lemma_wire_split(s, at, pa2, v.modified_at_versions.wire());
        lemma_wire_split(s, at, pa1, v.gas_used.wire());
        assert(wire_at(s, at, d1.wire()));
        <TransactionStatus as Wire>::wire_prefix_free(s, at, d1, &v.status);
        assert(at + pa1.len() == e1);
        assert(wire_at(s, e1, v.gas_used.wire()));
        assert(false);
    }
}

#[verifier::rlimit(100)]
#[verifier::spinoff_prover]
proof fn lemma_transaction_effects_stuck_2(s: Seq<char>, at: int, d1: &TransactionStatus, e1: int)
    requires
        0 <= at <= s.len(),
        at <= e1 <= s.len(),
        s.subrange(at, e1) == d1.wire(),
        forall|x: GasEffects| !wire_at(s, e1, x.wire()),
    ensures
        forall|v: TransactionEffects| !wire_at(s, at, v.wire()),
{
    assert forall|v: TransactionEffects| !wire_at(s, at, v.wire()) by {
        if wire_at(s, at, v.wire()) {
            lemma_transaction_effects_stuck_2_at(s, at, d1, e1, &v);
        }
    }
}

/// No value of this type can begin here when its next part is missing.
#[verifier::rlimit(100)]
#[verifier::spinoff_prover]
proof fn lemma_transaction_effects_stuck_3_at(s: Seq<char>, at: int, d1: &TransactionStatus, d2: &GasEffects, e1: int, e2: int, v: &TransactionEffects)
    requires
        0 <= at <= s.len(),
        at <= e1 <= s.len(),
        s.subrange(at, e1) == d1.wire(),
        e1 <= e2 <= s.len(),
        s.subrange(e1, e2) == d2.wire(),
        forall|x: Vec<ModifiedObject>| !wire_at(s, e2, x.wire()),
    ensures
        !wire_at(s, at, v.wire()),
{
    if wire_at(s, at, v.wire()) {
        let pa1 = v.status.wire();
        let pa2 = pa1 + v.gas_used.wire();
        let pa3 = pa2 + v.modified_at_versions.wire();
        let pa4 = pa3 + v.created.wire();
        let pa5 = pa4 + v.deleted.wire();
        let pa6 = pa5 + v.shared_objects.wire();
        let pa7 = pa6 + v.dependencies.wire();
        assert(wire_at(s, at, pa7)) by {
            assert(pa7 =~= v.wire());
        }
        lemma_wire_split(s, at, pa6, v.dependencies.wire());
        lemma_wire_split(s, at, pa5, v.shared_objects.wire());
        lemma_wire_split(s, at, pa4, v.deleted.wire());
        lemma_wire_split(s, at, pa3, v.created.wire());
        lemma_wire_split(s, at, pa2, v.modified_at_versions.wire());
        lemma_wire_split(s, at, pa1, v.gas_used.wire());
        assert(wire_at(s, at, d1.wire()));
        <TransactionStatus as Wire>::wire_prefix_free(s, at, d1, &v.status);
        assert(at + pa1.len() == e1);
        assert(wire_at(s, e1, d2.wire()));
        <GasEffects as Wire>::wire_prefix_free(s, e1, d2, &v.gas_used);
        assert(at + pa2.len() == e2);
        assert(wire_at(s, e2, v.modified_at_versions.wire()));
        assert(false);
    }
}

#[verifier::rlimit(100)]
#[verifier::spinoff_prover]
proof fn lemma_transaction_effects_stuck_3(s: Seq<char>, at: int, d1: &TransactionStatus, d2: &GasEffects, e1: int, e2: int)
    requires
        0 <= at <= s.len(),
        at <= e1 <= s.len(),
        s.subrange(at, e1) == d1.wire(),
        e1 <= e2 <= s.len(),
        s.subrange(e1, e2) == d2.wire(),
        forall|x: Vec<ModifiedObject>| !wire_at(s, e2, x.wire()),
    ensures
        forall|v: TransactionEffects| !wire_at(s, at, v.wire()),
{
    assert forall|v: TransactionEffects| !wire_at(s, at, v.wire()) by {
        if wire_at(s, at, v.wire()) {
            lemma_transaction_effects_stuck_3_at(s, at, d1, d2, e1, e2, &v);
        }
    }
}

/// No value of this type can begin here when its next part is missing.
#[verifier::rlimit(100)]
#[verifier::spinoff_prover]
proof fn lemma_transaction_effects_stuck_4_at(s: Seq<char>, at: int, d1: &TransactionStatus, d2: &GasEffects, d3: &Vec<ModifiedObject>, e1: int, e2: int, e3: int, v: &TransactionEffects)
    requires
        0 <= at <= s.len(),
        at <= e1 <= s.len(),
        s.subrange(at, e1) == d1.wire(),
        e1 <= e2 <= s.len(),
        s.subrange(e1, e2) == d2.wire(),
        e2 <= e3 <= s.len(),
        s.subrange(e2, e3) == d3.wire(),
        forall|x: Vec<CreatedObject>| !wire_at(s, e3, x.wire()),
    ensures
        !wire_at(s, at, v.wire()),
{
    if wire_at(s, at, v.wire()) {
        let pa1 = v.status.wire();
        let pa2 = pa1 + v.gas_used.wire();
        let pa3 = pa2 + v.modified_at_versions.wire();
        let pa4 = pa3 + v.created.wire();
        let pa5 = pa4 + v.deleted.wire();
        let pa6 = pa5 + v.shared_objects.wire();
        let pa7 = pa6 + v.dependencies.wire();
        assert(wire_at(s, at, pa7)) by {
            assert(pa7 =~= v.wire());
        }
        lemma_wire_split(s, at, pa6, v.dependencies.wire());
        lemma_wire_split(s, at, pa5, v.shared_objects.wire());
        lemma_wire_split(s, at, pa4, v.deleted.wire());
        lemma_wire_split(s, at, pa3, v.created.wire());
        lemma_wire_split(s, at, pa2, v.modified_at_versions.wire());
        lemma_wire_split(s, at, pa1, v.gas_used.wire());
        assert(wire_at(s, at, d1.wire()));
        <TransactionStatus as Wire>::wire_prefix_free(s, at, d1, &v.status);
        assert(at + pa1.len() == e1);
        assert(wire_at(s, e1, d2.wire()));
        <GasEffects as Wire>::wire_prefix_free(s, e1, d2, &v.gas_used);
        assert(at + pa2.len() == e2);
        assert(wire_at(s, e2, d3.wire()));
        <Vec<ModifiedObject> as Wire>::wire_prefix_free(s, e2, d3, &v.modified_at_versions);
        assert(at + pa3.len() == e3);
        assert(wire_at(s, e3, v.created.wire()));
        assert(false);
    }
}

#[verifier::rlimit(100)]
#[verifier::spinoff_prover]
proof fn lemma_transaction_effects_stuck_4(s: Seq<char>, at: int, d1: &TransactionStatus, d2: &GasEffects, d3: &Vec<ModifiedObject>, e1: int, e2: int, e3: int)
    requires
        0 <= at <= s.len(),
        at <= e1 <= s.len(),
        s.subrange(at, e1) == d1.wire(),
        e1 <= e2 <= s.len(),
        s.subrange(e1, e2) == d2.wire(),
        e2 <= e3 <= s.len(),
        s.subrange(e2, e3) == d3.wire(),
        forall|x: Vec<CreatedObject>| !wire_at(s, e3, x.wire()),
    ensures
        forall|v: TransactionEffects| !wire_at(s, at, v.wire()),
{
    assert forall|v: TransactionEffects| !wire_at(s, at, v.wire()) by {
        if wire_at(s, at, v.wire()) {
            lemma_transaction_effects_stuck_4_at(s, at, d1, d2, d3, e1, e2, e3, &v);
        }
    }
}

/// No value of this type can begin here when its next part is missing.
#[verifier::rlimit(100)]
#[verifier::spinoff_prover]
proof fn lemma_transaction_effects_stuck_5_at(s: Seq<char>, at: int, d1: &TransactionStatus, d2: &GasEffects, d3: &Vec<ModifiedObject>, d4: &Vec<CreatedObject>, e1: int, e2: int, e3: int, e4: int, v: &TransactionEffects)
    requires
        0 <= at <= s.len(),
        at <= e1 <= s.len(),
        s.subrange(at, e1) == d1.wire(),
        e1 <= e2 <= s.len(),
        s.subrange(e1, e2) == d2.wire(),
        e2 <= e3 <= s.len(),
        s.subrange(e2, e3) == d3.wire(),
        e3 <= e4 <= s.len(),
        s.subrange(e3, e4) == d4.wire(),
        forall|x: Vec<DeletedObject>| !wire_at(s, e4, x.wire()),
    ensures
        !wire_at(s, at, v.wire()),
{
    if wire_at(s, at, v.wire()) {
        let pa1 = v.status.wire();
        let pa2 = pa1 + v.gas_used.wire();
        let pa3 = pa2 + v.modified_at_versions.wire();
        let pa4 = pa3 + v.created.wire();
        let pa5 = pa4 + v.deleted.wire();
        let pa6 = pa5 + v.shared_objects.wire();
        let pa7 = pa6 + v.dependencies.wire();
        assert(wire_at(s, at, pa7)) by {
            assert(pa7 =~= v.wire());
        }
        lemma_wire_split(s, at, pa6, v.dependencies.wire());
        lemma_wire_split(s, at, pa5, v.shared_objects.wire());
        lemma_wire_split(s, at, pa4, v.deleted.wire());
        lemma_wire_split(s, at, pa3, v.created.wire());
        lemma_wire_split(s, at, pa2, v.modified_at_versions.wire());
        lemma_wire_split(s, at, pa1, v.gas_used.wire());
        assert(wire_at(s, at, d1.wire()));
        <TransactionStatus as Wire>::wire_prefix_free(s, at, d1, &v.status);
        assert(at + pa1.len() == e1);
        assert(wire_at(s, e1, d2.wire()));
        <GasEffects as Wire>::wire_prefix_free(s, e1, d2, &v.gas_used);
        assert(at + pa2.len() == e2);
        assert(wire_at(s, e2, d3.wire()));
        <Vec<ModifiedObject> as Wire>::wire_prefix_free(s, e2, d3, &v.modified_at_versions);
        assert(at + pa3.len() == e3);
        assert(wire_at(s, e3, d4.wire()));
        <Vec<CreatedObject> as Wire>::wire_prefix_free(s, e3, d4, &v.created);
        assert(at + pa4.len() == e4);
        assert(wire_at(s, e4, v.deleted.wire()));
        assert(false);
    }
}

#[verifier::rlimit(100)]
#[verifier::spinoff_prover]
proof fn lemma_transaction_effects_stuck_5(s: Seq<char>, at: int, d1: &TransactionStatus, d2: &GasEffects, d3: &Vec<ModifiedObject>, d4: &Vec<CreatedObject>, e1: int, e2: int, e3: int, e4: int)
    requires
        0 <= at <= s.len(),
        at <= e1 <= s.len(),
        s.subrange(at, e1) == d1.wire(),
        e1 <= e2 <= s.len(),
        s.subrange(e1, e2) == d2.wire(),
        e2 <= e3 <= s.len(),
        s.subrange(e2, e3) == d3.wire(),
        e3 <= e4 <= s.len(),
        s.subrange(e3, e4) == d4.wire(),
        forall|x: Vec<DeletedObject>| !wire_at(s, e4, x.wire()),
    ensures
        forall|v: TransactionEffects| !wire_at(s, at, v.wire()),
{
    assert forall|v: TransactionEffects| !wire_at(s, at, v.wire()) by {
        if wire_at(s, at, v.wire()) {
            lemma_transaction_effects_stuck_5_at(s, at, d1, d2, d3, d4, e1, e2, e3, e4, &v);
        }
    }
}

/// No value of this type can begin here when its next part is missing.
#[verifier::rlimit(100)]
#[verifier::spinoff_prover]
proof fn lemma_transaction_effects_stuck_6_at(s: Seq<char>, at: int, d1: &TransactionStatus, d2: &GasEffects, d3: &Vec<ModifiedObject>, d4: &Vec<CreatedObject>, d5: &Vec<DeletedObject>, e1: int, e2: int, e3: int, e4: int, e5: int, v: &TransactionEffects)
    requires
        0 <= at <= s.len(),
        at <= e1 <= s.len(),
        s.subrange(at, e1) == d1.wire(),
        e1 <= e2 <= s.len(),
        s.subrange(e1, e2) == d2.wire(),
        e2 <= e3 <= s.len(),
        s.subrange(e2, e3) == d3.wire(),
        e3 <= e4 <= s.len(),
        s.subrange(e3, e4) == d4.wire(),
        e4 <= e5 <= s.len(),
        s.subrange(e4, e5) == d5.wire(),
        forall|x: Vec<SharedObjectMutation>| !wire_at(s, e5, x.wire()),
    ensures
        !wire_at(s, at, v.wire()),
{
    if wire_at(s, at, v.wire()) {
        let pa1 = v.status.wire();
        let pa2 = pa1 + v.gas_used.wire();
        let pa3 = pa2 + v.modified_at_versions.wire();
        let pa4 = pa3 + v.created.wire();
        let pa5 = pa4 + v.deleted.wire();
        let pa6 = pa5 + v.shared_objects.wire();
        let pa7 = pa6 + v.dependencies.wire();
        assert(wire_at(s, at, pa7)) by {
            assert(pa7 =~= v.wire());
        }
        lemma_wire_split(s, at, pa6, v.dependencies.wire());
        lemma_wire_split(s, at, pa5, v.shared_objects.wire());
        lemma_wire_split(s, at, pa4, v.deleted.wire());
        lemma_wire_split(s, at, pa3, v.created.wire());
        lemma_wire_split(s, at, pa2, v.modified_at_versions.wire());
        lemma_wire_split(s, at, pa1, v.gas_used.wire());
        assert(wire_at(s, at, d1.wire()));
        <TransactionStatus as Wire>::wire_prefix_free(s, at, d1, &v.status);
        assert(at + pa1.len() == e1);
        assert(wire_at(s, e1, d2.wire()));
        <GasEffects as Wire>::wire_prefix_free(s, e1, d2, &v.gas_used);
        assert(at + pa2.len() == e2);
        assert(wire_at(s, e2, d3.wire()));
        <Vec<ModifiedObject> as Wire>::wire_prefix_free(s, e2, d3, &v.modified_at_versions);
        assert(at + pa3.len() == e3);
        assert(wire_at(s, e3, d4.wire()));
        <Vec<CreatedObject> as Wire>::wire_prefix_free(s, e3, d4, &v.created);
        assert(at + pa4.len() == e4);
        assert(wire_at(s, e4, d5.wire()));
        <Vec<DeletedObject> as Wire>::wire_prefix_free(s, e4, d5, &v.deleted);
        assert(at + pa5.len() == e5);
        assert(wire_at(s, e5, v.shared_objects.wire()));
        assert(false);
    }
}

#[verifier::rlimit(100)]
#[verifier::spinoff_prover]
proof fn lemma_transaction_effects_stuck_6(s: Seq<char>, at: int, d1: &TransactionStatus, d2: &GasEffects, d3: &Vec<ModifiedObject>, d4: &Vec<CreatedObject>, d5: &Vec<DeletedObject>, e1: int, e2: int, e3: int, e4: int, e5: int)
    requires
        0 <= at <= s.len(),
        at <= e1 <= s.len(),
        s.subrange(at, e1) == d1.wire(),
        e1 <= e2 <= s.len(),
        s.subrange(e1, e2) == d2.wire(),
        e2 <= e3 <= s.len(),
        s.subrange(e2, e3) == d3.wire(),
        e3 <= e4 <= s.len(),
        s.subrange(e3, e4) == d4.wire(),
        e4 <= e5 <= s.len(),
        s.subrange(e4, e5) == d5.wire(),
        forall|x: Vec<SharedObjectMutation>| !wire_at(s, e5, x.wire()),
    ensures
        forall|v: TransactionEffects| !wire_at(s, at, v.wire()),
{
    assert forall|v: TransactionEffects| !wire_at(s, at, v.wire()) by {
        if wire_at(s, at, v.wire()) {
            lemma_transaction_effects_stuck_6_at(s, at, d1, d2, d3, d4, d5, e1, e2, e3, e4, e5, &v);
        }
    }
}

/// No value of this type can begin here when its next part is missing.
#[verifier::rlimit(100)]
#[verifier::spinoff_prover]
proof fn lemma_transaction_effects_stuck_7_at(s: Seq<char>, at: int, d1: &TransactionStatus, d2: &GasEffects, d3: &Vec<ModifiedObject>, d4: &Vec<CreatedObject>, d5: &Vec<DeletedObject>, d6: &Vec<SharedObjectMutation>, e1: int, e2: int, e3: int, e4: int, e5: int, e6: int, v: &TransactionEffects)
    requires
        0 <= at <= s.len(),
        at <= e1 <= s.len(),
        s.subrange(at, e1) == d1.wire(),
        e1 <= e2 <= s.len(),
        s.subrange(e1, e2) == d2.wire(),
        e2 <= e3 <= s.len(),
        s.subrange(e2, e3) == d3.wire(),
        e3 <= e4 <= s.len(),
        s.subrange(e3, e4) == d4.wire(),
        e4 <= e5 <= s.len(),
        s.subrange(e4, e5) == d5.wire(),
        e5 <= e6 <= s.len(),
        s.subrange(e5, e6) == d6.wire(),
        forall|x: Vec<String>| !wire_at(s, e6, x.wire()),
    ensures
        !wire_at(s, at, v.wire()),
{
    if wire_at(s, at, v.wire()) {
        let pa1 = v.status.wire();
        let pa2 = pa1 + v.gas_used.wire();
        let pa3 = pa2 + v.modified_at_versions.wire();
        let pa4 = pa3 + v.created.wire();
        let pa5 = pa4 + v.deleted.wire();
        let pa6 = pa5 + v.shared_objects.wire();
        let pa7 = pa6 + v.dependencies.wire();
        assert(wire_at(s, at, pa7)) by {
            assert(pa7 =~= v.wire());
        }
        lemma_wire_split(s, at, pa6, v.dependencies.wire());
        lemma_wire_split(s, at, pa5, v.shared_objects.wire());
        lemma_wire_split(s, at, pa4, v.deleted.wire());
        lemma_wire_split(s, at, pa3, v.created.wire());
        lemma_wire_split(s, at, pa2, v.modified_at_versions.wire());
        lemma_wire_split(s, at, pa1, v.gas_used.wire());
        assert(wire_at(s, at, d1.wire()));
        <TransactionStatus as Wire>::wire_prefix_free(s, at, d1, &v.status);
        assert(at + pa1.len() == e1);
        assert(wire_at(s, e1, d2.wire()));
        <GasEffects as Wire>::wire_prefix_free(s, e1, d2, &v.gas_used);
        assert(at + pa2.len() == e2);
        assert(wire_at(s, e2, d3.wire()));
        <Vec<ModifiedObject> as Wire>::wire_prefix_free(s, e2, d3, &v.modified_at_versions);
        assert(at + pa3.len() == e3);
        assert(wire_at(s, e3, d4.wire()));
        <Vec<CreatedObject> as Wire>::wire_prefix_free(s, e3, d4, &v.created);
        assert(at + pa4.len() == e4);
        assert(wire_at(s, e4, d5.wire()));
        <Vec<DeletedObject> as Wire>::wire_prefix_free(s, e4, d5, &v.deleted);
        assert(at + pa5.len() == e5);
        assert(wire_at(s, e5, d6.wire()));
        <Vec<SharedObjectMutation> as Wire>::wire_prefix_free(s, e5, d6, &v.shared_objects);
        assert(at + pa6.len() == e6);
        assert(wire_at(s, e6, v.dependencies.wire()));
        assert(false);
    }
}

#[verifier::rlimit(100)]
#[verifier::spinoff_prover]
proof fn lemma_transaction_effects_stuck_7(s: Seq<char>, at: int, d1: &TransactionStatus, d2: &GasEffects, d3: &Vec<ModifiedObject>, d4: &Vec<CreatedObject>, d5: &Vec<DeletedObject>, d6: &Vec<SharedObjectMutation>, e1: int, e2: int, e3: int, e4: int, e5: int, e6: int)
    requires
        0 <= at <= s.len(),
        at <= e1 <= s.len(),
        s.subrange(at, e1) == d1.wire(),
        e1 <= e2 <= s.len(),
        s.subrange(e1, e2) == d2.wire(),
        e2 <= e3 <= s.len(),
        s.subrange(e2, e3) == d3.wire(),
        e3 <= e4 <= s.len(),
        s.subrange(e3, e4) == d4.wire(),
        e4 <= e5 <= s.len(),
        s.subrange(e4, e5) == d5.wire(),
        e5 <= e6 <= s.len(),
        s.subrange(e5, e6) == d6.wire(),
        forall|x: Vec<String>| !wire_at(s, e6, x.wire()),
    ensures
        forall|v: TransactionEffects| !wire_at(s, at, v.wire()),
{
    assert forall|v: TransactionEffects| !wire_at(s, at, v.wire()) by {
        if wire_at(s, at, v.wire()) {
            lemma_transaction_effects_stuck_7_at(s, at, d1, d2, d3, d4, d5, d6, e1, e2, e3, e4, e5, e6, &v);
        }
    }
}

impl Wire for TransactionEffects {
    open spec fn wire(&self) -> Seq<char> {
        self.status.wire() + self.gas_used.wire() + self.modified_at_versions.wire() + self.created.wire() + self.deleted.wire() + self.shared_objects.wire() + self.dependencies.wire()
    }

    open spec fn eqv(&self, other: &Self) -> bool {
        self.status.eqv(&other.status) && self.gas_used.eqv(&other.gas_used) && self.modified_at_versions.eqv(&other.modified_at_versions) && self.created.eqv(&other.created) && self.deleted.eqv(&other.deleted) && self.shared_objects.eqv(&other.shared_objects) && self.dependencies.eqv(&other.dependencies)
    }

    proof fn wire_nonempty(v: &Self) {
        <TransactionStatus as Wire>::wire_nonempty(&v.status);
    }

    #[verifier::rlimit(100)]
    #[verifier::spinoff_prover]
    fn write(&self, out: &mut String) {
        self.status.write(out);
        self.gas_used.write(out);
        self.modified_at_versions.write(out);
        self.created.write(out);
        self.deleted.write(out);
        self.shared_objects.write(out);
        self.dependencies.write(out);
        proof {
            assert(final(out)@ =~= old(out)@ + self.wire());
        }
    }

    #[verifier::rlimit(100)]
    #[verifier::spinoff_prover]
    fn read(s: &str, at: usize) -> (r: Option<(Self, usize)>) {
        let (status, e1) = match <TransactionStatus as Wire>::read(s, at) {
            Some(p) => p,
            None => {
                proof {
                    lemma_transaction_effects_stuck_1(s@, at as int);
                }
                return None;
            },
        };
        let (gas_used, e2) = match <GasEffects as Wire>::read(s, e1) {
            Some(p) => p,
            None => {
                proof {
                    lemma_transaction_effects_stuck_2(s@, at as int, &status, e1 as int);
                }
                return None;
            },
        };
        let (modified_at_versions, e3) = match <Vec<ModifiedObject> as Wire>::read(s, e2) {
            Some(p) => p,
            None => {
                proof {
                    lemma_transaction_effects_stuck_3(s@, at as int, &status, &gas_used, e1 as int, e2 as int);
                }
                return None;
            },
        };
        let (created, e4) = match <Vec<CreatedObject> as Wire>::read(s, e3) {
            Some(p) => p,
            None => {
                proof {
                    lemma_transaction_effects_stuck_4(s@, at as int, &status, &gas_used, &modified_at_versions, e1 as int, e2 as int, e3 as int);
                }
                return None;
            },
        };
        let (deleted, e5) = match <Vec<DeletedObject> as Wire>::read(s, e4) {
            Some(p) => p,
            None => {
                proof {
                    lemma_transaction_effects_stuck_5(s@, at as int, &status, &gas_used, &modified_at_versions, &created, e1 as int, e2 as int, e3 as int, e4 as int);
                }
                return None;
            },
        };
        let (shared_objects, e6) = match <Vec<SharedObjectMutation> as Wire>::read(s, e5) {
            Some(p) => p,
            None => {
                proof {
                    lemma_transaction_effects_stuck_6(s@, at as int, &status, &gas_used, &modified_at_versions, &created, &deleted, e1 as int, e2 as int, e3 as int, e4 as int, e5 as int);
                }
                return None;
            },
        };
        let (dependencies, e7) = match <Vec<String> as Wire>::read(s, e6) {
            Some(p) => p,
            None => {
                proof {
                    lemma_transaction_effects_stuck_7(s@, at as int, &status, &gas_used, &modified_at_versions, &created, &deleted, &shared_objects, e1 as int, e2 as int, e3 as int, e4 as int, e5 as int, e6 as int);
                }
                return None;
            },
        };
        let v = TransactionEffects { status, gas_used, modified_at_versions, created, deleted, shared_objects, dependencies };
        proof {
            assert(s@.subrange(at as int, e7 as int) =~= v.wire());
        }
        Some((v, e7))
    }

    #[verifier::rlimit(100)]
    #[verifier::spinoff_prover]
    proof fn wire_prefix_free(s: Seq<char>, at: int, v1: &Self, v2: &Self) {
        let p1a = v1.status.wire();
        let p2a = p1a + v1.gas_used.wire();
        let p3a = p2a + v1.modified_at_versions.wire();
        let p4a = p3a + v1.created.wire();
        let p5a = p4a + v1.deleted.wire();
        let p6a = p5a + v1.shared_objects.wire();
        let p7a = p6a + v1.dependencies.wire();
        let p1b = v2.status.wire();
        let p2b = p1b + v2.gas_used.wire();
        let p3b = p2b + v2.modified_at_versions.wire();
        let p4b = p3b + v2.created.wire();
        let p5b = p4b + v2.deleted.wire();
        let p6b = p5b + v2.shared_objects.wire();
        let p7b = p6b + v2.dependencies.wire();
        assert(wire_at(s, at, p7a)) by {
            assert(p7a =~= v1.wire());
        }
        assert(wire_at(s, at, p7b)) by {
            assert(p7b =~= v2.wire());
        }
        lemma_wire_split(s, at, p6a, v1.dependencies.wire());
        lemma_wire_split(s, at, p6b, v2.dependencies.wire());
        lemma_wire_split(s, at, p5a, v1.shared_objects.wire());
        lemma_wire_split(s, at, p5b, v2.shared_objects.wire());
        lemma_wire_split(s, at, p4a, v1.deleted.wire());
        lemma_wire_split(s, at, p4b, v2.deleted.wire());
        lemma_wire_split(s, at, p3a, v1.created.wire());
        lemma_wire_split(s, at, p3b, v2.created.wire());
        lemma_wire_split(s, at, p2a, v1.modified_at_versions.wire());
        lemma_wire_split(s, at, p2b, v2.modified_at_versions.wire());
        lemma_wire_split(s, at, p1a, v1.gas_used.wire());
        lemma_wire_split(s, at, p1b, v2.gas_used.wire());
        <TransactionStatus as Wire>::wire_prefix_free(s, at, &v1.status, &v2.status);
        assert(p1a == p1b);
        <GasEffects as Wire>::wire_prefix_free(s, at + p1a.len(), &v1.gas_used, &v2.gas_used);
        assert(p2a == p2b);
        <Vec<ModifiedObject> as Wire>::wire_prefix_free(s, at + p2a.len(), &v1.modified_at_versions, &v2.modified_at_versions);
        assert(p3a == p3b);
        <Vec<CreatedObject> as Wire>::wire_prefix_free(s, at + p3a.len(), &v1.created, &v2.created);
        assert(p4a == p4b);
        <Vec<DeletedObject> as Wire>::wire_prefix_free(s, at + p4a.len(), &v1.deleted, &v2.deleted);
        assert(p5a == p5b);
        <Vec<SharedObjectMutation> as Wire>::wire_prefix_free(s, at + p5a.len(), &v1.shared_objects, &v2.shared_objects);
        assert(p6a == p6b);
        <Vec<String> as Wire>::wire_prefix_free(s, at + p6a.len(), &v1.dependencies, &v2.dependencies);
        assert(v1.wire() =~= v2.wire());
    }
}


/// No value of this type can begin here when its next part is missing.
#[verifier::rlimit(100)]
#[verifier::spinoff_prover]
proof fn lemma_object_change_stuck_1_at(s: Seq<char>, at: int, v: &ObjectChange)
    requires
        0 <= at <= s.len(),
        forall|x: ObjectChangeKind| !wire_at(s, at, x.wire()),
    ensures
        !wire_at(s, at, v.wire()),
{
    if wire_at(s, at, v.wire()) {
        let pa1 = v.kind.wire();
        let pa2 = pa1 + v.object_id.wire();
        let pa3 = pa2 + v.version.wire();
        let pa4 = pa3 + v.digest.wire();
        assert(wire_at(s, at, pa4)) by {
            assert(pa4 =~= v.wire());
        }
        lemma_wire_split(s, at, pa3, v.digest.wire());
        lemma_wire_split(s, at, pa2, v.version.wire());
        lemma_wire_split(s, at, pa1, v.object_id.wire());
        assert(wire_at(s, at, v.kind.wire()));
        assert(false);
    }
}

#[verifier::rlimit(100)]
#[verifier::spinoff_prover]
proof fn lemma_object_change_stuck_1(s: Seq<char>, at: int)
    requires
        0 <= at <= s.len(),
        forall|x: ObjectChangeKind| !wire_at(s, at, x.wire()),
    ensures
        forall|v: ObjectChange| !wire_at(s, at, v.wire()),
{
    assert forall|v: ObjectChange| !wire_at(s, at, v.wire()) by {
        if wire_at(s, at, v.wire()) {
            lemma_object_change_stuck_1_at(s, at, &v);
        }
    }
}

/// No value of this type can begin here when its next part is missing.
#[verifier::rlimit(100)]
#[verifier::spinoff_prover]
proof fn lemma_object_change_stuck_2_at(s: Seq<char>, at: int, d1: &ObjectChangeKind, e1: int, v: &ObjectChange)
    requires
        0 <= at <= s.len(),
        at <= e1 <= s.len(),
        s.subrange(at, e1) == d1.wire(),
        forall|x: String| !wire_at(s, e1, x.wire()),
    ensures
        !wire_at(s, at, v.wire()),
{
    if wire_at(s, at, v.wire()) {
        let pa1 = v.kind.wire();
        let pa2 = pa1 + v.object_id.wire();
        let pa3 = pa2 + v.version.wire();
        let pa4 = pa3 + v.digest.wire();
        assert(wire_at(s, at, pa4)) by {
            assert(pa4 =~= v.wire());
        }
        lemma_wire_split(s, at, pa3, v.digest.wire());
        lemma_wire_split(s, at, pa2, v.version.wire());
        lemma_wire_split(s, at, pa1, v.object_id.wire());
        assert(wire_at(s, at, d1.wire()));
        <ObjectChangeKind as Wire>::wire_prefix_free(s, at, d1, &v.kind);
        assert(at + pa1.len() == e1);
        assert(wire_at(s, e1, v.object_id.wire()));
        assert(false);
    }
}

#[verifier::rlimit(100)]
#[verifier::spinoff_prover]
proof fn lemma_object_change_stuck_2(s: Seq<char>, at: int, d1: &ObjectChangeKind, e1: int)
    requires
        0 <= at <= s.len(),
        at <= e1 <= s.len(),
        s.subrange(at, e1) == d1.wire(),
        forall|x: String| !wire_at(s, e1, x.wire()),
    ensures
        forall|v: ObjectChange| !wire_at(s, at, v.wire()),
{
    assert forall|v: ObjectChange| !wire_at(s, at, v.wire()) by {
        if wire_at(s, at, v.wire()) {
            lemma_object_change_stuck_2_at(s, at, d1, e1, &v);
        }
    }
}

/// No value of this type can begin here when its next part is missing.
#[verifier::rlimit(100)]
#[verifier::spinoff_prover]
proof fn lemma_object_change_stuck_3_at(s: Seq<char>, at: int, d1: &ObjectChangeKind, d2: &String, e1: int, e2: int, v: &ObjectChange)
    requires
        0 <= at <= s.len(),
        at <= e1 <= s.len(),
        s.subrange(at, e1) == d1.wire(),
        e1 <= e2 <= s.len(),
        s.subrange(e1, e2) == d2.wire(),
        forall|x: u64| !wire_at(s, e2, x.wire()),
    ensures
        !wire_at(s, at, v.wire()),
{
    if wire_at(s, at, v.wire()) {
        let pa1 = v.kind.wire();
        let pa2 = pa1 + v.object_id.wire();
        let pa3 = pa2 + v.version.wire();
        let pa4 = pa3 + v.digest.wire();
        assert(wire_at(s, at, pa4)) by {
            assert(pa4 =~= v.wire());
        }
        lemma_wire_split(s, at, pa3, v.digest.wire());
        lemma_wire_split(s, at, pa2, v.version.wire());
        lemma_wire_split(s, at, pa1, v.object_id.wire());
        assert(wire_at(s, at, d1.wire()));
        <ObjectChangeKind as Wire>::wire_prefix_free(s, at, d1, &v.kind);
        assert(at + pa1.len() == e1);
        assert(wire_at(s, e1, d2.wire()));
        <String as Wire>::wire_prefix_free(s, e1, d2, &v.object_id);
        assert(at + pa2.len() == e2);
        assert(wire_at(s, e2, v.version.wire()));
        assert(false);
    }
}

#[verifier::rlimit(100)]
#[verifier::spinoff_prover]
proof fn lemma_object_change_stuck_3(s: Seq<char>, at: int, d1: &ObjectChangeKind, d2: &String, e1: int, e2: int)
    requires
        0 <= at <= s.len(),
        at <= e1 <= s.len(),
        s.subrange(at, e1) == d1.wire(),
        e1 <= e2 <= s.len(),
        s.subrange(e1, e2) == d2.wire(),
        forall|x: u64| !wire_at(s, e2, x.wire()),
    ensures
        forall|v: ObjectChange| !wire_at(s, at, v.wire()),
{
    assert forall|v: ObjectChange| !wire_at(s, at, v.wire()) by {
        if wire_at(s, at, v.wire()) {
            lemma_object_change_stuck_3_at(s, at, d1, d2, e1, e2, &v);
        }
    }
}

/// No value of this type can begin here when its next part is missing.
#[verifier::rlimit(100)]
#[verifier::spinoff_prover]
proof fn lemma_object_change_stuck_4_at(s: Seq<char>, at: int, d1: &ObjectChangeKind, d2: &String, d3: &u64, e1: int, e2: int, e3: int, v: &ObjectChange)
    requires
        0 <= at <= s.len(),
        at <= e1 <= s.len(),
        s.subrange(at, e1) == d1.wire(),
        e1 <= e2 <= s.len(),
        s.subrange(e1, e2) == d2.wire(),
        e2 <= e3 <= s.len(),
        s.subrange(e2, e3) == d3.wire(),
        forall|x: Option<String>| !wire_at(s, e3, x.wire()),
    ensures
        !wire_at(s, at, v.wire()),
{
    if wire_at(s, at, v.wire()) {
        let pa1 = v.kind.wire();
        let pa2 = pa1 + v.object_id.wire();
        let pa3 = pa2 + v.version.wire();
        let pa4 = pa3 + v.digest.wire();
        assert(wire_at(s, at, pa4)) by {
            assert(pa4 =~= v.wire());
        }
        lemma_wire_split(s, at, pa3, v.digest.wire());
        lemma_wire_split(s, at, pa2, v.version.wire());
        lemma_wire_split(s, at, pa1, v.object_id.wire());
        assert(wire_at(s, at, d1.wire()));
        <ObjectChangeKind as Wire>::wire_prefix_free(s, at, d1, &v.kind);
        assert(at + pa1.len() == e1);
        assert(wire_at(s, e1, d2.wire()));
        <String as Wire>::wire_prefix_free(s, e1, d2, &v.object_id);
        assert(at + pa2.len() == e2);
        assert(wire_at(s, e2, d3.wire()));
        <u64 as Wire>::wire_prefix_free(s, e2, d3, &v.version);
        assert(at + pa3.len() == e3);
        assert(wire_at(s, e3, v.digest.wire()));
        assert(false);
    }
}

#[verifier::rlimit(100)]
#[verifier::spinoff_prover]
proof fn lemma_object_change_stuck_4(s: Seq<char>, at: int, d1: &ObjectChangeKind, d2: &String, d3: &u64, e1: int, e2: int, e3: int)
    requires
        0 <= at <= s.len(),
        at <= e1 <= s.len(),
        s.subrange(at, e1) == d1.wire(),
        e1 <= e2 <= s.len(),
        s.subrange(e1, e2) == d2.wire(),
        e2 <= e3 <= s.len(),
        s.subrange(e2, e3) == d3.wire(),
        forall|x: Option<String>| !wire_at(s, e3, x.wire()),
    ensures
        forall|v: ObjectChange| !wire_at(s, at, v.wire()),
{
    assert forall|v: ObjectChange| !wire_at(s, at, v.wire()) by {
        if wire_at(s, at, v.wire()) {
            lemma_object_change_stuck_4_at(s, at, d1, d2, d3, e1, e2, e3, &v);
        }
    }
}

impl Wire for ObjectChange {
    open spec fn wire(&self) -> Seq<char> {
        self.kind.wire() + self.object_id.wire() + self.version.wire() + self.digest.wire()
    }

    open spec fn eqv(&self, other: &Self) -> bool {
        self.kind.eqv(&other.kind) && self.object_id.eqv(&other.object_id) && self.version == other.version && self.digest.eqv(&other.digest)
    }

    proof fn wire_nonempty(v: &Self) {
        <ObjectChangeKind as Wire>::wire_nonempty(&v.kind);
    }

    fn write(&self, out: &mut String) {
        self.kind.write(out);
        self.object_id.write(out);
        self.version.write(out);
        self.digest.write(out);
        proof {
            assert(final(out)@ =~= old(out)@ + self.wire());
        }
    }

    fn read(s: &str, at: usize) -> (r: Option<(Self, usize)>) {
        let (kind, e1) = match <ObjectChangeKind as Wire>::read(s, at) {
            Some(p) => p,
            None => {
                proof {
                    lemma_object_change_stuck_1(s@, at as int);
                }
                return None;
            },
        };
        let (object_id, e2) = match <String as Wire>::read(s, e1) {
            Some(p) => p,
            None => {
                proof {
                    lemma_object_change_stuck_2(s@, at as int, &kind, e1 as int);
                }
                return None;
            },
        };
        let (version, e3) = match <u64 as Wire>::read(s, e2) {
            Some(p) => p,
            None => {
                proof {
                    lemma_object_change_stuck_3(s@, at as int, &kind, &object_id, e1 as int, e2 as int);
                }
                return None;
            },
        };
        let (digest, e4) = match <Option<String> as Wire>::read(s, e3) {
            Some(p) => p,
            None => {
                proof {
                    lemma_object_change_stuck_4(s@, at as int, &kind, &object_id, &version, e1 as int, e2 as int, e3 as int);
                }
                return None;
            },
        };
        let v = ObjectChange { kind, object_id, version, digest };
        proof {
            assert(s@.subrange(at as int, e4 as int) =~= v.wire());
        }
        Some((v, e4))
    }

    proof fn wire_prefix_free(s: Seq<char>, at: int, v1: &Self, v2: &Self) {
        let p1a = v1.kind.wire();
        let p2a = p1a + v1.object_id.wire();
        let p3a = p2a + v1.version.wire();
        let p4a = p3a + v1.digest.wire();
        let p1b = v2.kind.wire();
        let p2b = p1b + v2.object_id.wire();
        let p3b = p2b + v2.version.wire();
        let p4b = p3b + v2.digest.wire();
        assert(wire_at(s, at, p4a)) by {
            assert(p4a =~= v1.wire());
        }
        assert(wire_at(s, at, p4b)) by {
            assert(p4b =~= v2.wire());
        }
        lemma_wire_split(s, at, p3a, v1.digest.wire());
        lemma_wire_split(s, at, p3b, v2.digest.wire());
        lemma_wire_split(s, at, p2a, v1.version.wire());
        lemma_wire_split(s, at, p2b, v2.version.wire());
        lemma_wire_split(s, at, p1a, v1.object_id.wire());
        lemma_wire_split(s, at, p1b, v2.object_id.wire());
        <ObjectChangeKind as Wire>::wire_prefix_free(s, at, &v1.kind, &v2.kind);
        assert(p1a == p1b);
        <String as Wire>::wire_prefix_free(s, at + p1a.len(), &v1.object_id, &v2.object_id);
        assert(p2a == p2b);
        <u64 as Wire>::wire_prefix_free(s, at + p2a.len(), &v1.version, &v2.version);
        assert(p3a == p3b);
        <Option<String> as Wire>::wire_prefix_free(s, at + p3a.len(), &v1.digest, &v2.digest);
        assert(v1.wire() =~= v2.wire());
    }
}


/// No value of this type can begin here when its next part is missing.
#[verifier::rlimit(100)]
#[verifier::spinoff_prover]
proof fn lemma_checkpoint_transaction_stuck_1_at(s: Seq<char>, at: int, v: &CheckpointTransaction)
    requires
        0 <= at <= s.len(),
        forall|x: String| !wire_at(s, at, x.wire()),
    ensures
        !wire_at(s, at, v.wire()),
{
    if wire_at(s, at, v.wire()) {
        let pa1 = v.digest.wire();
        let pa2 = pa1 + v.sender.wire();
        let pa3 = pa2 + v.kind.wire();
        let pa4 = pa3 + v.gas_budget.wire();
        let pa5 = pa4 + v.gas_price.wire();
        let pa6 = pa5 + v.data.wire();
        let pa7 = pa6 + v.effects.wire();
        let pa8 = pa7 + v.events.wire();
        let pa9 = pa8 + v.object_changes.wire();
        let pa10 = pa9 + v.timestamp_ms.wire();
        assert(wire_at(s, at, pa10)) by {
            assert(pa10 =~= v.wire());
        }
        lemma_wire_split(s, at, pa9, v.timestamp_ms.wire());
        lemma_wire_split(s, at, pa8, v.object_changes.wire());
        lemma_wire_split(s, at, pa7, v.events.wire());
        lemma_wire_split(s, at, pa6, v.effects.wire());
        lemma_wire_split(s, at, pa5, v.data.wire());
        lemma_wire_split(s, at, pa4, v.gas_price.wire());
        lemma_wire_split(s, at, pa3, v.gas_budget.wire());
        lemma_wire_split(s, at, pa2, v.kind.wire());
        lemma_wire_split(s, at, pa1, v.sender.wire());
        assert(wire_at(s, at, v.digest.wire()));
        assert(false);
    }
}

#[verifier::rlimit(100)]
#[verifier::spinoff_prover]
proof fn lemma_checkpoint_transaction_stuck_1(s: Seq<char>, at: int)
    requires
        0 <= at <= s.len(),
        forall|x: String| !wire_at(s, at, x.wire()),
    ensures
        forall|v: CheckpointTransaction| !wire_at(s, at, v.wire()),
{
    assert forall|v: CheckpointTransaction| !wire_at(s, at, v.wire()) by {
        if wire_at(s, at, v.wire()) {
            lemma_checkpoint_transaction_stuck_1_at(s, at, &v);
        }
    }
}

/// No value of this type can begin here when its next part is missing.
#[verifier::rlimit(100)]
#[verifier::spinoff_prover]
proof fn lemma_checkpoint_transaction_stuck_2_at(s: Seq<char>, at: int, d1: &String, e1: int, v: &CheckpointTransaction)
    requires
        0 <= at <= s.len(),
        at <= e1 <= s.len(),
        s.subrange(at, e1) == d1.wire(),
        forall|x: String| !wire_at(s, e1, x.wire()),
    ensures
        !wire_at(s, at, v.wire()),
{
    if wire_at(s, at, v.wire()) {
        let pa1 = v.digest.wire();
        let pa2 = pa1 + v.sender.wire();
        let pa3 = pa2 + v.kind.wire();
        let pa4 = pa3 + v.gas_budget.wire();
        let pa5 = pa4 + v.gas_price.wire();
        let pa6 = pa5 + v.data.wire();
        let pa7 = pa6 + v.effects.wire();
        let pa8 = pa7 + v.events.wire();
        let pa9 = pa8 + v.object_changes.wire();
        let pa10 = pa9 + v.timestamp_ms.wire();
        assert(wire_at(s, at, pa10)) by {
            assert(pa10 =~= v.wire());
        }
        lemma_wire_split(s, at, pa9, v.timestamp_ms.wire());
        lemma_wire_split(s, at, pa8, v.object_changes.wire());
        lemma_wire_split(s, at, pa7, v.events.wire());
        lemma_wire_split(s, at, pa6, v.effects.wire());
        lemma_wire_split(s, at, pa5, v.data.wire());
        lemma_wire_split(s, at, pa4, v.gas_price.wire());
        lemma_wire_split(s, at, pa3, v.gas_budget.wire());
        lemma_wire_split(s, at, pa2, v.kind.wire());
        lemma_wire_split(s, at, pa1, v.sender.wire());
        assert(wire_at(s, at, d1.wire()));
        <String as Wire>::wire_prefix_free(s, at, d1, &v.digest);
        assert(at + pa1.len() == e1);
        assert(wire_at(s, e1, v.sender.wire()));
        assert(false);
    }
}

#[verifier::rlimit(100)]
#[verifier::spinoff_prover]
proof fn lemma_checkpoint_transaction_stuck_2(s: Seq<char>, at: int, d1: &String, e1: int)
    requires
        0 <= at <= s.len(),
        at <= e1 <= s.len(),
        s.subrange(at, e1) == d1.wire(),
        forall|x: String| !wire_at(s, e1, x.wire()),
    ensures
        forall|v: CheckpointTransaction| !wire_at(s, at, v.wire()),
{
    assert forall|v: CheckpointTransaction| !wire_at(s, at, v.wire()) by {
        if wire_at(s, at, v.wire()) {
            lemma_checkpoint_transaction_stuck_2_at(s, at, d1, e1, &v);
        }
    }
}

/// No value of this type can begin here when its next part is missing.
#[verifier::rlimit(100)]
#[verifier::spinoff_prover]
proof fn lemma_checkpoint_transaction_stuck_3_at(s: Seq<char>, at: int, d1: &String, d2: &String, e1: int, e2: int, v: &CheckpointTransaction)
    requires
        0 <= at <= s.len(),
        at <= e1 <= s.len(),
        s.subrange(at, e1) == d1.wire(),
        e1 <= e2 <= s.len(),
        s.subrange(e1, e2) == d2.wire(),
        forall|x: TransactionKind| !wire_at(s, e2, x.wire()),
    ensures
        !wire_at(s, at, v.wire()),
{
    if wire_at(s, at, v.wire()) {
        let pa1 = v.digest.wire();
        let pa2 = pa1 + v.sender.wire();
        let pa3 = pa2 + v.kind.wire();
        let pa4 = pa3 + v.gas_budget.wire();
        let pa5 = pa4 + v.gas_price.wire();
        let pa6 = pa5 + v.data.wire();
        let pa7 = pa6 + v.effects.wire();
        let pa8 = pa7 + v.events.wire();
        let pa9 = pa8 + v.object_changes.wire();
        let pa10 = pa9 + v.timestamp_ms.wire();
        assert(wire_at(s, at, pa10)) by {
            assert(pa10 =~= v.wire());
        }
        lemma_wire_split(s, at, pa9, v.timestamp_ms.wire());
        lemma_wire_split(s, at, pa8, v.object_changes.wire());
        lemma_wire_split(s, at, pa7, v.events.wire());
        lemma_wire_split(s, at, pa6, v.effects.wire());
        lemma_wire_split(s, at, pa5, v.data.wire());
        lemma_wire_split(s, at, pa4, v.gas_price.wire());
        lemma_wire_split(s, at, pa3, v.gas_budget.wire());
        lemma_wire_split(s, at, pa2, v.kind.wire());
        lemma_wire_split(s, at, pa1, v.sender.wire());
        assert(wire_at(s, at, d1.wire()));
        <String as Wire>::wire_prefix_free(s, at, d1, &v.digest);
        assert(at + pa1.len() == e1);
        assert(wire_at(s, e1, d2.wire()));
        <String as Wire>::wire_prefix_free(s, e1, d2, &v.sender);
        assert(at + pa2.len() == e2);
        assert(wire_at(s, e2, v.kind.wire()));
        assert(false);
    }
}

#[verifier::rlimit(100)]
#[verifier::spinoff_prover]
proof fn lemma_checkpoint_transaction_stuck_3(s: Seq<char>, at: int, d1: &String, d2: &String, e1: int, e2: int)
    requires
        0 <= at <= s.len(),
        at <= e1 <= s.len(),
        s.subrange(at, e1) == d1.wire(),
        e1 <= e2 <= s.len(),
        s.subrange(e1, e2) == d2.wire(),
        forall|x: TransactionKind| !wire_at(s, e2, x.wire()),
    ensures
        forall|v: CheckpointTransaction| !wire_at(s, at, v.wire()),
{
    assert forall|v: CheckpointTransaction| !wire_at(s, at, v.wire()) by {
        if wire_at(s, at, v.wire()) {
            lemma_checkpoint_transaction_stuck_3_at(s, at, d1, d2, e1, e2, &v);
        }
    }
}

/// No value of this type can begin here when its next part is missing.
#[verifier::rlimit(100)]
#[verifier::spinoff_prover]
proof fn lemma_checkpoint_transaction_stuck_4_at(s: Seq<char>, at: int, d1: &String, d2: &String, d3: &TransactionKind, e1: int, e2: int, e3: int, v: &CheckpointTransaction)
    requires
        0 <= at <= s.len(),
        at <= e1 <= s.len(),
        s.subrange(at, e1) == d1.wire(),
        e1 <= e2 <= s.len(),
        s.subrange(e1, e2) == d2.wire(),
        e2 <= e3 <= s.len(),
        s.subrange(e2, e3) == d3.wire(),
        forall|x: u64| !wire_at(s, e3, x.wire()),
    ensures
        !wire_at(s, at, v.wire()),
{
    if wire_at(s, at, v.wire()) {
        let pa1 = v.digest.wire();
        let pa2 = pa1 + v.sender.wire();
        let pa3 = pa2 + v.kind.wire();
        let pa4 = pa3 + v.gas_budget.wire();
        let pa5 = pa4 + v.gas_price.wire();
        let pa6 = pa5 + v.data.wire();
        let pa7 = pa6 + v.effects.wire();
        let pa8 = pa7 + v.events.wire();
        let pa9 = pa8 + v.object_changes.wire();
        let pa10 = pa9 + v.timestamp_ms.wire();
        assert(wire_at(s, at, pa10)) by {
            assert(pa10 =~= v.wire());
        }
        lemma_wire_split(s, at, pa9, v.timestamp_ms.wire());
        lemma_wire_split(s, at, pa8, v.object_changes.wire());
        lemma_wire_split(s, at, pa7, v.events.wire());
        lemma_wire_split(s, at, pa6, v.effects.wire());
        lemma_wire_split(s, at, pa5, v.data.wire());
        lemma_wire_split(s, at, pa4, v.gas_price.wire());
        lemma_wire_split(s, at, pa3, v.gas_budget.wire());
        lemma_wire_split(s, at, pa2, v.kind.wire());
        lemma_wire_split(s, at, pa1, v.sender.wire());
        assert(wire_at(s, at, d1.wire()));
        <String as Wire>::wire_prefix_free(s, at, d1, &v.digest);
        assert(at + pa1.len() == e1);
        assert(wire_at(s, e1, d2.wire()));
        <String as Wire>::wire_prefix_free(s, e1, d2, &v.sender);
        assert(at + pa2.len() == e2);
        assert(wire_at(s, e2, d3.wire()));
        <TransactionKind as Wire>::wire_prefix_free(s, e2, d3, &v.kind);
        assert(at + pa3.len() == e3);
        assert(wire_at(s, e3, v.gas_budget.wire()));
        assert(false);
    }
}

#[verifier::rlimit(100)]
#[verifier::spinoff_prover]
proof fn lemma_checkpoint_transaction_stuck_4(s: Seq<char>, at: int, d1: &String, d2: &String, d3: &TransactionKind, e1: int, e2: int, e3: int)
    requires
        0 <= at <= s.len(),
        at <= e1 <= s.len(),
        s.subrange(at, e1) == d1.wire(),
        e1 <= e2 <= s.len(),
        s.subrange(e1, e2) == d2.wire(),
        e2 <= e3 <= s.len(),
        s.subrange(e2, e3) == d3.wire(),
        forall|x: u64| !wire_at(s, e3, x.wire()),
    ensures
        forall|v: CheckpointTransaction| !wire_at(s, at, v.wire()),
{
    assert forall|v: CheckpointTransaction| !wire_at(s, at, v.wire()) by {
        if wire_at(s, at, v.wire()) {
            lemma_checkpoint_transaction_stuck_4_at(s, at, d1, d2, d3, e1, e2, e3, &v);
        }
    }
}

/// No value of this type can begin here when its next part is missing.
#[verifier::rlimit(100)]
#[verifier::spinoff_prover]
proof fn lemma_checkpoint_transaction_stuck_5_at(s: Seq<char>, at: int, d1: &String, d2: &String, d3: &TransactionKind, d4: &u64, e1: int, e2: int, e3: int, e4: int, v: &CheckpointTransaction)
    requires
        0 <= at <= s.len(),
        at <= e1 <= s.len(),
        s.subrange(at, e1) == d1.wire(),
        e1 <= e2 <= s.len(),
        s.subrange(e1, e2) == d2.wire(),
        e2 <= e3 <= s.len(),
        s.subrange(e2, e3) == d3.wire(),
        e3 <= e4 <= s.len(),
        s.subrange(e3, e4) == d4.wire(),
        forall|x: u64| !wire_at(s, e4, x.wire()),
    ensures
        !wire_at(s, at, v.wire()),
{
    if wire_at(s, at, v.wire()) {
        let pa1 = v.digest.wire();
        let pa2 = pa1 + v.sender.wire();
        let pa3 = pa2 + v.kind.wire();
        let pa4 = pa3 + v.gas_budget.wire();
        let pa5 = pa4 + v.gas_price.wire();
        let pa6 = pa5 + v.data.wire();
        let pa7 = pa6 + v.effects.wire();
        let pa8 = pa7 + v.events.wire();
        let pa9 = pa8 + v.object_changes.wire();
        let pa10 = pa9 + v.timestamp_ms.wire();
        assert(wire_at(s, at, pa10)) by {
            assert(pa10 =~= v.wire());
        }
        lemma_wire_split(s, at, pa9, v.timestamp_ms.wire());
        lemma_wire_split(s, at, pa8, v.object_changes.wire());
        lemma_wire_split(s, at, pa7, v.events.wire());
        lemma_wire_split(s, at, pa6, v.effects.wire());
        lemma_wire_split(s, at, pa5, v.data.wire());
        lemma_wire_split(s, at, pa4, v.gas_price.wire());
        lemma_wire_split(s, at, pa3, v.gas_budget.wire());
        lemma_wire_split(s, at, pa2, v.kind.wire());
        lemma_wire_split(s, at, pa1, v.sender.wire());
        assert(wire_at(s, at, d1.wire()));
        <String as Wire>::wire_prefix_free(s, at, d1, &v.digest);
        assert(at + pa1.len() == e1);
        assert(wire_at(s, e1, d2.wire()));
        <String as Wire>::wire_prefix_free(s, e1, d2, &v.sender);
        assert(at + pa2.len() == e2);
        assert(wire_at(s, e2, d3.wire()));
        <TransactionKind as Wire>::wire_prefix_free(s, e2, d3, &v.kind);
        assert(at + pa3.len() == e3);
        assert(wire_at(s, e3, d4.wire()));
        <u64 as Wire>::wire_prefix_free(s, e3, d4, &v.gas_budget);
        assert(at + pa4.len() == e4);
        assert(wire_at(s, e4, v.gas_price.wire()));
        assert(false);
    }
}

#[verifier::rlimit(100)]
#[verifier::spinoff_prover]
proof fn lemma_checkpoint_transaction_stuck_5(s: Seq<char>, at: int, d1: &String, d2: &String, d3: &TransactionKind, d4: &u64, e1: int, e2: int, e3: int, e4: int)
    requires
        0 <= at <= s.len(),
        at <= e1 <= s.len(),
        s.subrange(at, e1) == d1.wire(),
        e1 <= e2 <= s.len(),
        s.subrange(e1, e2) == d2.wire(),
        e2 <= e3 <= s.len(),
        s.subrange(e2, e3) == d3.wire(),
        e3 <= e4 <= s.len(),
        s.subrange(e3, e4) == d4.wire(),
        forall|x: u64| !wire_at(s, e4, x.wire()),
    ensures
        forall|v: CheckpointTransaction| !wire_at(s, at, v.wire()),
{
    assert forall|v: CheckpointTransaction| !wire_at(s, at, v.wire()) by {
        if wire_at(s, at, v.wire()) {
            lemma_checkpoint_transaction_stuck_5_at(s, at, d1, d2, d3, d4, e1, e2, e3, e4, &v);
        }
    }
}

/// No value of this type can begin here when its next part is missing.
#[verifier::rlimit(100)]
#[verifier::spinoff_prover]
proof fn lemma_checkpoint_transaction_stuck_6_at(s: Seq<char>, at: int, d1: &String, d2: &String, d3: &TransactionKind, d4: &u64, d5: &u64, e1: int, e2: int, e3: int, e4: int, e5: int, v: &CheckpointTransaction)
    requires
        0 <= at <= s.len(),
        at <= e1 <= s.len(),
        s.subrange(at, e1) == d1.wire(),
        e1 <= e2 <= s.len(),
        s.subrange(e1, e2) == d2.wire(),
        e2 <= e3 <= s.len(),
        s.subrange(e2, e3) == d3.wire(),
        e3 <= e4 <= s.len(),
        s.subrange(e3, e4) == d4.wire(),
        e4 <= e5 <= s.len(),
        s.subrange(e4, e5) == d5.wire(),
        forall|x: TransactionData| !wire_at(s, e5, x.wire()),
    ensures
        !wire_at(s, at, v.wire()),
{
    if wire_at(s, at, v.wire()) {
        let pa1 = v.digest.wire();
        let pa2 = pa1 + v.sender.wire();
        let pa3 = pa2 + v.kind.wire();
        let pa4 = pa3 + v.gas_budget.wire();
        let pa5 = pa4 + v.gas_price.wire();
        let pa6 = pa5 + v.data.wire();
        let pa7 = pa6 + v.effects.wire();
        let pa8 = pa7 + v.events.wire();
        let pa9 = pa8 + v.object_changes.wire();
        let pa10 = pa9 + v.timestamp_ms.wire();
        assert(wire_at(s, at, pa10)) by {
            assert(pa10 =~= v.wire());
        }
        lemma_wire_split(s, at, pa9, v.timestamp_ms.wire());
        lemma_wire_split(s, at, pa8, v.object_changes.wire());
        lemma_wire_split(s, at, pa7, v.events.wire());
        lemma_wire_split(s, at, pa6, v.effects.wire());
        lemma_wire_split(s, at, pa5, v.data.wire());
        lemma_wire_split(s, at, pa4, v.gas_price.wire());
        lemma_wire_split(s, at, pa3, v.gas_budget.wire());
        lemma_wire_split(s, at, pa2, v.kind.wire());
        lemma_wire_split(s, at, pa1, v.sender.wire());
        assert(wire_at(s, at, d1.wire()));
        <String as Wire>::wire_prefix_free(s, at, d1, &v.digest);
        assert(at + pa1.len() == e1);
        assert(wire_at(s, e1, d2.wire()));
        <String as Wire>::wire_prefix_free(s, e1, d2, &v.sender);
        assert(at + pa2.len() == e2);
        assert(wire_at(s, e2, d3.wire()));
        <TransactionKind as Wire>::wire_prefix_free(s, e2, d3, &v.kind);
        assert(at + pa3.len() == e3);
        assert(wire_at(s, e3, d4.wire()));
        <u64 as Wire>::wire_prefix_free(s, e3, d4, &v.gas_budget);
        assert(at + pa4.len() == e4);
        assert(wire_at(s, e4, d5.wire()));
        <u64 as Wire>::wire_prefix_free(s, e4, d5, &v.gas_price);
        assert(at + pa5.len() == e5);
        assert(wire_at(s, e5, v.data.wire()));
        assert(false);
    }
}

#[verifier::rlimit(100)]
#[verifier::spinoff_prover]
proof fn lemma_checkpoint_transaction_stuck_6(s: Seq<char>, at: int, d1: &String, d2: &String, d3: &TransactionKind, d4: &u64, d5: &u64, e1: int, e2: int, e3: int, e4: int, e5: int)
    requires
        0 <= at <= s.len(),
        at <= e1 <= s.len(),
        s.subrange(at, e1) == d1.wire(),
        e1 <= e2 <= s.len(),
        s.subrange(e1, e2) == d2.wire(),
        e2 <= e3 <= s.len(),
        s.subrange(e2, e3) == d3.wire(),
        e3 <= e4 <= s.len(),
        s.subrange(e3, e4) == d4.wire(),
        e4 <= e5 <= s.len(),
        s.subrange(e4, e5) == d5.wire(),
        forall|x: TransactionData| !wire_at(s, e5, x.wire()),
    ensures
        forall|v: CheckpointTransaction| !wire_at(s, at, v.wire()),
{
    assert forall|v: CheckpointTransaction| !wire_at(s, at, v.wire()) by {
        if wire_at(s, at, v.wire()) {
            lemma_checkpoint_transaction_stuck_6_at(s, at, d1, d2, d3, d4, d5, e1, e2, e3, e4, e5, &v);
        }
    }
}

/// No value of this type can begin here when its next part is missing.
#[verifier::rlimit(100)]
#[verifier::spinoff_prover]
proof fn lemma_checkpoint_transaction_stuck_7_at(s: Seq<char>, at: int, d1: &String, d2: &String, d3: &TransactionKind, d4: &u64, d5: &u64, d6: &TransactionData, e1: int, e2: int, e3: int, e4: int, e5: int, e6: int, v: &CheckpointTransaction)
    requires
        0 <= at <= s.len(),
        at <= e1 <= s.len(),
        s.subrange(at, e1) == d1.wire(),
        e1 <= e2 <= s.len(),
        s.subrange(e1, e2) == d2.wire(),
        e2 <= e3 <= s.len(),
        s.subrange(e2, e3) == d3.wire(),
        e3 <= e4 <= s.len(),
        s.subrange(e3, e4) == d4.wire(),
        e4 <= e5 <= s.len(),
        s.subrange(e4, e5) == d5.wire(),
        e5 <= e6 <= s.len(),
        s.subrange(e5, e6) == d6.wire(),
        forall|x: TransactionEffects| !wire_at(s, e6, x.wire()),
    ensures
        !wire_at(s, at, v.wire()),
{
    if wire_at(s, at, v.wire()) {
        let pa1 = v.digest.wire();
        let pa2 = pa1 + v.sender.wire();
        let pa3 = pa2 + v.kind.wire();
        let pa4 = pa3 + v.gas_budget.wire();
        let pa5 = pa4 + v.gas_price.wire();
        let pa6 = pa5 + v.data.wire();
        let pa7 = pa6 + v.effects.wire();
        let pa8 = pa7 + v.events.wire();
        let pa9 = pa8 + v.object_changes.wire();
        let pa10 = pa9 + v.timestamp_ms.wire();
        assert(wire_at(s, at, pa10)) by {
            assert(pa10 =~= v.wire());
        }
        lemma_wire_split(s, at, pa9, v.timestamp_ms.wire());
        lemma_wire_split(s, at, pa8, v.object_changes.wire());
        lemma_wire_split(s, at, pa7, v.events.wire());
        lemma_wire_split(s, at, pa6, v.effects.wire());
        lemma_wire_split(s, at, pa5, v.data.wire());
        lemma_wire_split(s, at, pa4, v.gas_price.wire());
        lemma_wire_split(s, at, pa3, v.gas_budget.wire());
        lemma_wire_split(s, at, pa2, v.kind.wire());
        lemma_wire_split(s, at, pa1, v.sender.wire());
        assert(wire_at(s, at, d1.wire()));
        <String as Wire>::wire_prefix_free(s, at, d1, &v.digest);
        assert(at + pa1.len() == e1);
        assert(wire_at(s, e1, d2.wire()));
        <String as Wire>::wire_prefix_free(s, e1, d2, &v.sender);
        assert(at + pa2.len() == e2);
        assert(wire_at(s, e2, d3.wire()));
        <TransactionKind as Wire>::wire_prefix_free(s, e2, d3, &v.kind);
        assert(at + pa3.len() == e3);
        assert(wire_at(s, e3, d4.wire()));
        <u64 as Wire>::wire_prefix_free(s, e3, d4, &v.gas_budget);
        assert(at + pa4.len() == e4);
        assert(wire_at(s, e4, d5.wire()));
        <u64 as Wire>::wire_prefix_free(s, e4, d5, &v.gas_price);
        assert(at + pa5.len() == e5);
        assert(wire_at(s, e5, d6.wire()));
        <TransactionData as Wire>::wire_prefix_free(s, e5, d6, &v.data);
        assert(at + pa6.len() == e6);
        assert(wire_at(s, e6, v.effects.wire()));
        assert(false);
    }
}

#[verifier::rlimit(100)]
#[verifier::spinoff_prover]
proof fn lemma_checkpoint_transaction_stuck_7(s: Seq<char>, at: int, d1: &String, d2: &String, d3: &TransactionKind, d4: &u64, d5: &u64, d6: &TransactionData, e1: int, e2: int, e3: int, e4: int, e5: int, e6: int)
    requires
        0 <= at <= s.len(),
        at <= e1 <= s.len(),
        s.subrange(at, e1) == d1.wire(),
        e1 <= e2 <= s.len(),
        s.subrange(e1, e2) == d2.wire(),
        e2 <= e3 <= s.len(),
        s.subrange(e2, e3) == d3.wire(),
        e3 <= e4 <= s.len(),
        s.subrange(e3, e4) == d4.wire(),
        e4 <= e5 <= s.len(),
        s.subrange(e4, e5) == d5.wire(),
        e5 <= e6 <= s.len(),
        s.subrange(e5, e6) == d6.wire(),
        forall|x: TransactionEffects| !wire_at(s, e6, x.wire()),
    ensures
        forall|v: CheckpointTransaction| !wire_at(s, at, v.wire()),
{
    assert forall|v: CheckpointTransaction| !wire_at(s, at, v.wire()) by {
        if wire_at(s, at, v.wire()) {
            lemma_checkpoint_transaction_stuck_7_at(s, at, d1, d2, d3, d4, d5, d6, e1, e2, e3, e4, e5, e6, &v);
        }
    }
}

/// No value of this type can begin here when its next part is missing.
#[verifier::rlimit(100)]
#[verifier::spinoff_prover]
proof fn lemma_checkpoint_transaction_stuck_8_at(s: Seq<char>, at: int, d1: &String, d2: &String, d3: &TransactionKind, d4: &u64, d5: &u64, d6: &TransactionData, d7: &TransactionEffects, e1: int, e2: int, e3: int, e4: int, e5: int, e6: int, e7: int, v: &CheckpointTransaction)
    requires
        0 <= at <= s.len(),
        at <= e1 <= s.len(),
        s.subrange(at, e1) == d1.wire(),
        e1 <= e2 <= s.len(),
        s.subrange(e1, e2) == d2.wire(),
        e2 <= e3 <= s.len(),
        s.subrange(e2, e3) == d3.wire(),
        e3 <= e4 <= s.len(),
        s.subrange(e3, e4) == d4.wire(),
        e4 <= e5 <= s.len(),
        s.subrange(e4, e5) == d5.wire(),
        e5 <= e6 <= s.len(),
        s.subrange(e5, e6) == d6.wire(),
        e6 <= e7 <= s.len(),
        s.subrange(e6, e7) == d7.wire(),
        forall|x: Vec<Event>| !wire_at(s, e7, x.wire()),
    ensures
        !wire_at(s, at, v.wire()),
{
    if wire_at(s, at, v.wire()) {
        let pa1 = v.digest.wire();
        let pa2 = pa1 + v.sender.wire();
        let pa3 = pa2 + v.kind.wire();
        let pa4 = pa3 + v.gas_budget.wire();
        let pa5 = pa4 + v.gas_price.wire();
        let pa6 = pa5 + v.data.wire();
        let pa7 = pa6 + v.effects.wire();
        let pa8 = pa7 + v.events.wire();
        let pa9 = pa8 + v.object_changes.wire();
        let pa10 = pa9 + v.timestamp_ms.wire();
        assert(wire_at(s, at, pa10)) by {
            assert(pa10 =~= v.wire());
        }
        lemma_wire_split(s, at, pa9, v.timestamp_ms.wire());
        lemma_wire_split(s, at, pa8, v.object_changes.wire());
        lemma_wire_split(s, at, pa7, v.events.wire());
        lemma_wire_split(s, at, pa6, v.effects.wire());
        lemma_wire_split(s, at, pa5, v.data.wire());
        lemma_wire_split(s, at, pa4, v.gas_price.wire());
        lemma_wire_split(s, at, pa3, v.gas_budget.wire());
        lemma_wire_split(s, at, pa2, v.kind.wire());
        lemma_wire_split(s, at, pa1, v.sender.wire());
        assert(wire_at(s, at, d1.wire()));
        <String as Wire>::wire_prefix_free(s, at, d1, &v.digest);
        assert(at + pa1.len() == e1);
        assert(wire_at(s, e1, d2.wire()));
        <String as Wire>::wire_prefix_free(s, e1, d2, &v.sender);
        assert(at + pa2.len() == e2);
        assert(wire_at(s, e2, d3.wire()));
        <TransactionKind as Wire>::wire_prefix_free(s, e2, d3, &v.kind);
        assert(at + pa3.len() == e3);
        assert(wire_at(s, e3, d4.wire()));
        <u64 as Wire>::wire_prefix_free(s, e3, d4, &v.gas_budget);
        assert(at + pa4.len() == e4);
        assert(wire_at(s, e4, d5.wire()));
        <u64 as Wire>::wire_prefix_free(s, e4, d5, &v.gas_price);
        assert(at + pa5.len() == e5);
        assert(wire_at(s, e5, d6.wire()));
        <TransactionData as Wire>::wire_prefix_free(s, e5, d6, &v.data);
        assert(at + pa6.len() == e6);
        assert(wire_at(s, e6, d7.wire()));
        <TransactionEffects as Wire>::wire_prefix_free(s, e6, d7, &v.effects);
        assert(at + pa7.len() == e7);
        assert(wire_at(s, e7, v.events.wire()));
        assert(false);
    }
}

#[verifier::rlimit(100)]
#[verifier::spinoff_prover]
proof fn lemma_checkpoint_transaction_stuck_8(s: Seq<char>, at: int, d1: &String, d2: &String, d3: &TransactionKind, d4: &u64, d5: &u64, d6: &TransactionData, d7: &TransactionEffects, e1: int, e2: int, e3: int, e4: int, e5: int, e6: int, e7: int)
    requires
        0 <= at <= s.len(),
        at <= e1 <= s.len(),
        s.subrange(at, e1) == d1.wire(),
        e1 <= e2 <= s.len(),
        s.subrange(e1, e2) == d2.wire(),
        e2 <= e3 <= s.len(),
        s.subrange(e2, e3) == d3.wire(),
        e3 <= e4 <= s.len(),
        s.subrange(e3, e4) == d4.wire(),
        e4 <= e5 <= s.len(),
        s.subrange(e4, e5) == d5.wire(),
        e5 <= e6 <= s.len(),
        s.subrange(e5, e6) == d6.wire(),
        e6 <= e7 <= s.len(),
        s.subrange(e6, e7) == d7.wire(),
        forall|x: Vec<Event>| !wire_at(s, e7, x.wire()),
    ensures
        forall|v: CheckpointTransaction| !wire_at(s, at, v.wire()),
{
    assert forall|v: CheckpointTransaction| !wire_at(s, at, v.wire()) by {
        if wire_at(s, at, v.wire()) {
            lemma_checkpoint_transaction_stuck_8_at(s, at, d1, d2, d3, d4, d5, d6, d7, e1, e2, e3, e4, e5, e6, e7, &v);
        }
    }
}

/// No value of this type can begin here when its next part is missing.
#[verifier::rlimit(100)]
#[verifier::spinoff_prover]
proof fn lemma_checkpoint_transaction_stuck_9_at(s: Seq<char>, at: int, d1: &String, d2: &String, d3: &TransactionKind, d4: &u64, d5: &u64, d6: &TransactionData, d7: &TransactionEffects, d8: &Vec<Event>, e1: int, e2: int, e3: int, e4: int, e5: int, e6: int, e7: int, e8: int, v: &CheckpointTransaction)
    requires
        0 <= at <= s.len(),
        at <= e1 <= s.len(),
        s.subrange(at, e1) == d1.wire(),
        e1 <= e2 <= s.len(),
        s.subrange(e1, e2) == d2.wire(),
        e2 <= e3 <= s.len(),
        s.subrange(e2, e3) == d3.wire(),
        e3 <= e4 <= s.len(),
        s.subrange(e3, e4) == d4.wire(),
        e4 <= e5 <= s.len(),
        s.subrange(e4, e5) == d5.wire(),
        e5 <= e6 <= s.len(),
        s.subrange(e5, e6) == d6.wire(),
        e6 <= e7 <= s.len(),
        s.subrange(e6, e7) == d7.wire(),
        e7 <= e8 <= s.len(),
        s.subrange(e7, e8) == d8.wire(),
        forall|x: Vec<ObjectChange>| !wire_at(s, e8, x.wire()),
    ensures
        !wire_at(s, at, v.wire()),
{
    if wire_at(s, at, v.wire()) {
        let pa1 = v.digest.wire();
        let pa2 = pa1 + v.sender.wire();
        let pa3 = pa2 + v.kind.wire();
        let pa4 = pa3 + v.gas_budget.wire();
        let pa5 = pa4 + v.gas_price.wire();
        let pa6 = pa5 + v.data.wire();
        let pa7 = pa6 + v.effects.wire();
        let pa8 = pa7 + v.events.wire();
        let pa9 = pa8 + v.object_changes.wire();
        let pa10 = pa9 + v.timestamp_ms.wire();
        assert(wire_at(s, at, pa10)) by {
            assert(pa10 =~= v.wire());
        }
        lemma_wire_split(s, at, pa9, v.timestamp_ms.wire());
        lemma_wire_split(s, at, pa8, v.object_changes.wire());
        lemma_wire_split(s, at, pa7, v.events.wire());
        lemma_wire_split(s, at, pa6, v.effects.wire());
        lemma_wire_split(s, at, pa5, v.data.wire());
        lemma_wire_split(s, at, pa4, v.gas_price.wire());
        lemma_wire_split(s, at, pa3, v.gas_budget.wire());
        lemma_wire_split(s, at, pa2, v.kind.wire());
        lemma_wire_split(s, at, pa1, v.sender.wire());
        assert(wire_at(s, at, d1.wire()));
        <String as Wire>::wire_prefix_free(s, at, d1, &v.digest);
        assert(at + pa1.len() == e1);
        assert(wire_at(s, e1, d2.wire()));
        <String as Wire>::wire_prefix_free(s, e1, d2, &v.sender);
        assert(at + pa2.len() == e2);
        assert(wire_at(s, e2, d3.wire()));
        <TransactionKind as Wire>::wire_prefix_free(s, e2, d3, &v.kind);
        assert(at + pa3.len() == e3);
        assert(wire_at(s, e3, d4.wire()));
        <u64 as Wire>::wire_prefix_free(s, e3, d4, &v.gas_budget);
        assert(at + pa4.len() == e4);
        assert(wire_at(s, e4, d5.wire()));
        <u64 as Wire>::wire_prefix_free(s, e4, d5, &v.gas_price);
        assert(at + pa5.len() == e5);
        assert(wire_at(s, e5, d6.wire()));
        <TransactionData as Wire>::wire_prefix_free(s, e5, d6, &v.data);
        assert(at + pa6.len() == e6);
        assert(wire_at(s, e6, d7.wire()));
        <TransactionEffects as Wire>::wire_prefix_free(s, e6, d7, &v.effects);
        assert(at + pa7.len() == e7);
        assert(wire_at(s, e7, d8.wire()));
        <Vec<Event> as Wire>::wire_prefix_free(s, e7, d8, &v.events);
        assert(at + pa8.len() == e8);
        assert(wire_at(s, e8, v.object_changes.wire()));
        assert(false);
    }
}

#[verifier::rlimit(100)]
#[verifier::spinoff_prover]
proof fn lemma_checkpoint_transaction_stuck_9(s: Seq<char>, at: int, d1: &String, d2: &String, d3: &TransactionKind, d4: &u64, d5: &u64, d6: &TransactionData, d7: &TransactionEffects, d8: &Vec<Event>, e1: int, e2: int, e3: int, e4: int, e5: int, e6: int, e7: int, e8: int)
    requires
        0 <= at <= s.len(),
        at <= e1 <= s.len(),
        s.subrange(at, e1) == d1.wire(),
        e1 <= e2 <= s.len(),
        s.subrange(e1, e2) == d2.wire(),
        e2 <= e3 <= s.len(),
        s.subrange(e2, e3) == d3.wire(),
        e3 <= e4 <= s.len(),
        s.subrange(e3, e4) == d4.wire(),
        e4 <= e5 <= s.len(),
        s.subrange(e4, e5) == d5.wire(),
        e5 <= e6 <= s.len(),
        s.subrange(e5, e6) == d6.wire(),
        e6 <= e7 <= s.len(),
        s.subrange(e6, e7) == d7.wire(),
        e7 <= e8 <= s.len(),
        s.subrange(e7, e8) == d8.wire(),
        forall|x: Vec<ObjectChange>| !wire_at(s, e8, x.wire()),
    ensures
        forall|v: CheckpointTransaction| !wire_at(s, at, v.wire()),
{
    assert forall|v: CheckpointTransaction| !wire_at(s, at, v.wire()) by {
        if wire_at(s, at, v.wire()) {
            lemma_checkpoint_transaction_stuck_9_at(s, at, d1, d2, d3, d4, d5, d6, d7, d8, e1, e2, e3, e4, e5, e6, e7, e8, &v);
        }
    }
}

/// No value of this type can begin here when its next part is missing.
#[verifier::rlimit(100)]
#[verifier::spinoff_prover]
proof fn lemma_checkpoint_transaction_stuck_10_at(s: Seq<char>, at: int, d1: &String, d2: &String, d3: &TransactionKind, d4: &u64, d5: &u64, d6: &TransactionData, d7: &TransactionEffects, d8: &Vec<Event>, d9: &Vec<ObjectChange>, e1: int, e2: int, e3: int, e4: int, e5: int, e6: int, e7: int, e8: int, e9: int, v: &CheckpointTransaction)
    requires
        0 <= at <= s.len(),
        at <= e1 <= s.len(),
        s.subrange(at, e1) == d1.wire(),
        e1 <= e2 <= s.len(),
        s.subrange(e1, e2) == d2.wire(),
        e2 <= e3 <= s.len(),
        s.subrange(e2, e3) == d3.wire(),
        e3 <= e4 <= s.len(),
        s.subrange(e3, e4) == d4.wire(),
        e4 <= e5 <= s.len(),
        s.subrange(e4, e5) == d5.wire(),
        e5 <= e6 <= s.len(),
        s.subrange(e5, e6) == d6.wire(),
        e6 <= e7 <= s.len(),
        s.subrange(e6, e7) == d7.wire(),
        e7 <= e8 <= s.len(),
        s.subrange(e7, e8) == d8.wire(),
        e8 <= e9 <= s.len(),
        s.subrange(e8, e9) == d9.wire(),
        forall|x: u64| !wire_at(s, e9, x.wire()),
    ensures
        !wire_at(s, at, v.wire()),
{
    if wire_at(s, at, v.wire()) {
        let pa1 = v.digest.wire();
        let pa2 = pa1 + v.sender.wire();
        let pa3 = pa2 + v.kind.wire();
        let pa4 = pa3 + v.gas_budget.wire();
        let pa5 = pa4 + v.gas_price.wire();
        let pa6 = pa5 + v.data.wire();
        let pa7 = pa6 + v.effects.wire();
        let pa8 = pa7 + v.events.wire();
        let pa9 = pa8 + v.object_changes.wire();
        let pa10 = pa9 + v.timestamp_ms.wire();
        assert(wire_at(s, at, pa10)) by {
            assert(pa10 =~= v.wire());
        }
        lemma_wire_split(s, at, pa9, v.timestamp_ms.wire());
        lemma_wire_split(s, at, pa8, v.object_changes.wire());
        lemma_wire_split(s, at, pa7, v.events.wire());
        lemma_wire_split(s, at, pa6, v.effects.wire());
        lemma_wire_split(s, at, pa5, v.data.wire());
        lemma_wire_split(s, at, pa4, v.gas_price.wire());
        lemma_wire_split(s, at, pa3, v.gas_budget.wire());
        lemma_wire_split(s, at, pa2, v.kind.wire());
        lemma_wire_split(s, at, pa1, v.sender.wire());
        assert(wire_at(s, at, d1.wire()));
        <String as Wire>::wire_prefix_free(s, at, d1, &v.digest);
        assert(at + pa1.len() == e1);
        assert(wire_at(s, e1, d2.wire()));
        <String as Wire>::wire_prefix_free(s, e1, d2, &v.sender);
        assert(at + pa2.len() == e2);
        assert(wire_at(s, e2, d3.wire()));
        <TransactionKind as Wire>::wire_prefix_free(s, e2, d3, &v.kind);
        assert(at + pa3.len() == e3);
        assert(wire_at(s, e3, d4.wire()));
        <u64 as Wire>::wire_prefix_free(s, e3, d4, &v.gas_budget);
        assert(at + pa4.len() == e4);
        assert(wire_at(s, e4, d5.wire()));
        <u64 as Wire>::wire_prefix_free(s, e4, d5, &v.gas_price);
        assert(at + pa5.len() == e5);
        assert(wire_at(s, e5, d6.wire()));
        <TransactionData as Wire>::wire_prefix_free(s, e5, d6, &v.data);
        assert(at + pa6.len() == e6);
        assert(wire_at(s, e6, d7.wire()));
        <TransactionEffects as Wire>::wire_prefix_free(s, e6, d7, &v.effects);
        assert(at + pa7.len() == e7);
        assert(wire_at(s, e7, d8.wire()));
        <Vec<Event> as Wire>::wire_prefix_free(s, e7, d8, &v.events);
        assert(at + pa8.len() == e8);
        assert(wire_at(s, e8, d9.wire()));
        <Vec<ObjectChange> as Wire>::wire_prefix_free(s, e8, d9, &v.object_changes);
        assert(at + pa9.len() == e9);
        assert(wire_at(s, e9, v.timestamp_ms.wire()));
        assert(false);
    }
}

#[verifier::rlimit(100)]
#[verifier::spinoff_prover]
proof fn lemma_checkpoint_transaction_stuck_10(s: Seq<char>, at: int, d1: &String, d2: &String, d3: &TransactionKind, d4: &u64, d5: &u64, d6: &TransactionData, d7: &TransactionEffects, d8: &Vec<Event>, d9: &Vec<ObjectChange>, e1: int, e2: int, e3: int, e4: int, e5: int, e6: int, e7: int, e8: int, e9: int)
    requires
        0 <= at <= s.len(),
        at <= e1 <= s.len(),
        s.subrange(at, e1) == d1.wire(),
        e1 <= e2 <= s.len(),
        s.subrange(e1, e2) == d2.wire(),
        e2 <= e3 <= s.len(),
        s.subrange(e2, e3) == d3.wire(),
        e3 <= e4 <= s.len(),
        s.subrange(e3, e4) == d4.wire(),
        e4 <= e5 <= s.len(),
        s.subrange(e4, e5) == d5.wire(),
        e5 <= e6 <= s.len(),
        s.subrange(e5, e6) == d6.wire(),
        e6 <= e7 <= s.len(),
        s.subrange(e6, e7) == d7.wire(),
        e7 <= e8 <= s.len(),
        s.subrange(e7, e8) == d8.wire(),
        e8 <= e9 <= s.len(),
        s.subrange(e8, e9) == d9.wire(),
        forall|x: u64| !wire_at(s, e9, x.wire()),
    ensures
        forall|v: CheckpointTransaction| !wire_at(s, at, v.wire()),
{
    assert forall|v: CheckpointTransaction| !wire_at(s, at, v.wire()) by {
        if wire_at(s, at, v.wire()) {
            lemma_checkpoint_transaction_stuck_10_at(s, at, d1, d2, d3, d4, d5, d6, d7, d8, d9, e1, e2, e3, e4, e5, e6, e7, e8, e9, &v);
        }
    }
}

impl Wire for CheckpointTransaction {
    open spec fn wire(&self) -> Seq<char> {
        self.digest.wire() + self.sender.wire() + self.kind.wire() + self.gas_budget.wire() + self.gas_price.wire() + self.data.wire() + self.effects.wire() + self.events.wire() + self.object_changes.wire() + self.timestamp_ms.wire()
    }

    open spec fn eqv(&self, other: &Self) -> bool {
        self.digest.eqv(&other.digest) && self.sender.eqv(&other.sender) && self.kind.eqv(&other.kind) && self.gas_budget == other.gas_budget && self.gas_price == other.gas_price && self.data.eqv(&other.data) && self.effects.eqv(&other.effects) && self.events.eqv(&other.events) && self.object_changes.eqv(&other.object_changes) && self.timestamp_ms == other.timestamp_ms
    }

    proof fn wire_nonempty(v: &Self) {
        <String as Wire>::wire_nonempty(&v.digest);
    }

    #[verifier::rlimit(100)]
    #[verifier::spinoff_prover]
    fn write(&self, out: &mut String) {
        self.digest.write(out);
        self.sender.write(out);
        self.kind.write(out);
        self.gas_budget.write(out);
        self.gas_price.write(out);
        self.data.write(out);
        self.effects.write(out);
        self.events.write(out);
        self.object_changes.write(out);
        self.timestamp_ms.write(out);
        proof {
            assert(final(out)@ =~= old(out)@ + self.wire());
        }
    }

    #[verifier::rlimit(100)]
    #[verifier::spinoff_prover]
    fn read(s: &str, at: usize) -> (r: Option<(Self, usize)>) {
        let (digest, e1) = match <String as Wire>::read(s, at) {
            Some(p) => p,
            None => {
                proof {
                    lemma_checkpoint_transaction_stuck_1(s@, at as int);
                }
                return None;
            },
        };
        let (sender, e2) = match <String as Wire>::read(s, e1) {
            Some(p) => p,
            None => {
                proof {
                    lemma_checkpoint_transaction_stuck_2(s@, at as int, &digest, e1 as int);
                }
                return None;
            },
        };
        let (kind, e3) = match <TransactionKind as Wire>::read(s, e2) {
            Some(p) => p,
            None => {
                proof {
                    lemma_checkpoint_transaction_stuck_3(s@, at as int, &digest, &sender, e1 as int, e2 as int);
                }
                return None;
            },
        };
        let (gas_budget, e4) = match <u64 as Wire>::read(s, e3) {
            Some(p) => p,
            None => {
                proof {
                    lemma_checkpoint_transaction_stuck_4(s@, at as int, &digest, &sender, &kind, e1 as int, e2 as int, e3 as int);
                }
                return None;
            },
        };
        let (gas_price, e5) = match <u64 as Wire>::read(s, e4) {
            Some(p) => p,
            None => {
                proof {
                    lemma_checkpoint_transaction_stuck_5(s@, at as int, &digest, &sender, &kind, &gas_budget, e1 as int, e2 as int, e3 as int, e4 as int);
                }
                return None;
            },
        };
        let (data, e6) = match <TransactionData as Wire>::read(s, e5) {
            Some(p) => p,
            None => {
                proof {
                    lemma_checkpoint_transaction_stuck_6(s@, at as int, &digest, &sender, &kind, &gas_budget, &gas_price, e1 as int, e2 as int, e3 as int, e4 as int, e5 as int);
                }
                return None;
            },
        };
        let (effects, e7) = match <TransactionEffects as Wire>::read(s, e6) {
            Some(p) => p,
            None => {
                proof {
                    lemma_checkpoint_transaction_stuck_7(s@, at as int, &digest, &sender, &kind, &gas_budget, &gas_price, &data, e1 as int, e2 as int, e3 as int, e4 as int, e5 as int, e6 as int);
                }
                return None;
            },
        };
        let (events, e8) = match <Vec<Event> as Wire>::read(s, e7) {
            Some(p) => p,
            None => {
                proof {
                    lemma_checkpoint_transaction_stuck_8(s@, at as int, &digest, &sender, &kind, &gas_budget, &gas_price, &data, &effects, e1 as int, e2 as int, e3 as int, e4 as int, e5 as int, e6 as int, e7 as int);
                }
                return None;
            },
        };
        let (object_changes, e9) = match <Vec<ObjectChange> as Wire>::read(s, e8) {
            Some(p) => p,
            None => {
                proof {
                    lemma_checkpoint_transaction_stuck_9(s@, at as int, &digest, &sender, &kind, &gas_budget, &gas_price, &data, &effects, &events, e1 as int, e2 as int, e3 as int, e4 as int, e5 as int, e6 as int, e7 as int, e8 as int);
                }
                return None;
            },
        };
        let (timestamp_ms, e10) = match <u64 as Wire>::read(s, e9) {
            Some(p) => p,
            None => {
                proof {
                    lemma_checkpoint_transaction_stuck_10(s@, at as int, &digest, &sender, &kind, &gas_budget, &gas_price, &data, &effects, &events, &object_changes, e1 as int, e2 as int, e3 as int, e4 as int, e5 as int, e6 as int, e7 as int, e8 as int, e9 as int);
                }
                return None;
            },
        };
        let v = CheckpointTransaction { digest, sender, kind, gas_budget, gas_price, data, effects, events, object_changes, timestamp_ms };
        proof {
            assert(s@.subrange(at as int, e10 as int) =~= v.wire());
        }
        Some((v, e10))
    }

    #[verifier::rlimit(100)]
    #[verifier::spinoff_prover]
    proof fn wire_prefix_free(s: Seq<char>, at: int, v1: &Self, v2: &Self) {
        let p1a = v1.digest.wire();
        let p2a = p1a + v1.sender.wire();
        let p3a = p2a + v1.kind.wire();
        let p4a = p3a + v1.gas_budget.wire();
        let p5a = p4a + v1.gas_price.wire();
        let p6a = p5a + v1.data.wire();
        let p7a = p6a + v1.effects.wire();
        let p8a = p7a + v1.events.wire();
        let p9a = p8a + v1.object_changes.wire();
        let p10a = p9a + v1.timestamp_ms.wire();
        let p1b = v2.digest.wire();
        let p2b = p1b + v2.sender.wire();
        let p3b = p2b + v2.kind.wire();
        let p4b = p3b + v2.gas_budget.wire();
        let p5b = p4b + v2.gas_price.wire();
        let p6b = p5b + v2.data.wire();
        let p7b = p6b + v2.effects.wire();
        let p8b = p7b + v2.events.wire();
        let p9b = p8b + v2.object_changes.wire();
        let p10b = p9b + v2.timestamp_ms.wire();
        assert(wire_at(s, at, p10a)) by {
            assert(p10a =~= v1.wire());
        }
        assert(wire_at(s, at, p10b)) by {
            assert(p10b =~= v2.wire());
        }
        lemma_wire_split(s, at, p9a, v1.timestamp_ms.wire());
        lemma_wire_split(s, at, p9b, v2.timestamp_ms.wire());
        lemma_wire_split(s, at, p8a, v1.object_changes.wire());
        lemma_wire_split(s, at, p8b, v2.object_changes.wire());
        lemma_wire_split(s, at, p7a, v1.events.wire());
        lemma_wire_split(s, at, p7b, v2.events.wire());
        lemma_wire_split(s, at, p6a, v1.effects.wire());
        lemma_wire_split(s, at, p6b, v2.effects.wire());
        lemma_wire_split(s, at, p5a, v1.data.wire());
        lemma_wire_split(s, at, p5b, v2.data.wire());
        lemma_wire_split(s, at, p4a, v1.gas_price.wire());
        lemma_wire_split(s, at, p4b, v2.gas_price.wire());
        lemma_wire_split(s, at, p3a, v1.gas_budget.wire());
        lemma_wire_split(s, at, p3b, v2.gas_budget.wire());
        lemma_wire_split(s, at, p2a, v1.kind.wire());
        lemma_wire_split(s, at, p2b, v2.kind.wire());
        lemma_wire_split(s, at, p1a, v1.sender.wire());
        lemma_wire_split(s, at, p1b, v2.sender.wire());
        <String as Wire>::wire_prefix_free(s, at, &v1.digest, &v2.digest);
        assert(p1a == p1b);
        <String as Wire>::wire_prefix_free(s, at + p1a.len(), &v1.sender, &v2.sender);
        assert(p2a == p2b);
        <TransactionKind as Wire>::wire_prefix_free(s, at + p2a.len(), &v1.kind, &v2.kind);
        assert(p3a == p3b);
        <u64 as Wire>::wire_prefix_free(s, at + p3a.len(), &v1.gas_budget, &v2.gas_budget);
        assert(p4a == p4b);
        <u64 as Wire>::wire_prefix_free(s, at + p4a.len(), &v1.gas_price, &v2.gas_price);
        assert(p5a == p5b);
        <TransactionData as Wire>::wire_prefix_free(s, at + p5a.len(), &v1.data, &v2.data);
        assert(p6a == p6b);
        <TransactionEffects as Wire>::wire_prefix_free(s, at + p6a.len(), &v1.effects, &v2.effects);
        assert(p7a == p7b);
        <Vec<Event> as Wire>::wire_prefix_free(s, at + p7a.len(), &v1.events, &v2.events);
        assert(p8a == p8b);
        <Vec<ObjectChange> as Wire>::wire_prefix_free(s, at + p8a.len(), &v1.object_changes, &v2.object_changes);
        assert(p9a == p9b);
        <u64 as Wire>::wire_prefix_free(s, at + p9a.len(), &v1.timestamp_ms, &v2.timestamp_ms);
        assert(v1.wire() =~= v2.wire());
    }
}


/// No value of this type can begin here when its next part is missing.
#[verifier::rlimit(100)]
#[verifier::spinoff_prover]
proof fn lemma_checkpoint_data_stuck_1_at(s: Seq<char>, at: int, v: &CheckpointData)
    requires
        0 <= at <= s.len(),
        forall|x: CertifiedCheckpointSummary| !wire_at(s, at, x.wire()),
    ensures
        !wire_at(s, at, v.wire()),
{
    if wire_at(s, at, v.wire()) {
        let pa1 = v.checkpoint_summary.wire();
        let pa2 = pa1 + v.checkpoint_contents.wire();
        let pa3 = pa2 + v.transactions.wire();
        assert(wire_at(s, at, pa3)) by {
            assert(pa3 =~= v.wire());
        }
        lemma_wire_split(s, at, pa2, v.transactions.wire());
        lemma_wire_split(s, at, pa1, v.checkpoint_contents.wire());
        assert(wire_at(s, at, v.checkpoint_summary.wire()));
        assert(false);
    }
}

#[verifier::rlimit(100)]
#[verifier::spinoff_prover]
proof fn lemma_checkpoint_data_stuck_1(s: Seq<char>, at: int)
    requires
        0 <= at <= s.len(),
        forall|x: CertifiedCheckpointSummary| !wire_at(s, at, x.wire()),
    ensures
        forall|v: CheckpointData| !wire_at(s, at, v.wire()),
{
    assert forall|v: CheckpointData| !wire_at(s, at, v.wire()) by {
        if wire_at(s, at, v.wire()) {
            lemma_checkpoint_data_stuck_1_at(s, at, &v);
        }
    }
}

/// No value of this type can begin here when its next part is missing.
#[verifier::rlimit(100)]
#[verifier::spinoff_prover]
proof fn lemma_checkpoint_data_stuck_2_at(s: Seq<char>, at: int, d1: &CertifiedCheckpointSummary, e1: int, v: &CheckpointData)
    requires
        0 <= at <= s.len(),
        at <= e1 <= s.len(),
        s.subrange(at, e1) == d1.wire(),
        forall|x: CheckpointContents| !wire_at(s, e1, x.wire()),
    ensures
        !wire_at(s, at, v.wire()),
{
    if wire_at(s, at, v.wire()) {
        let pa1 = v.checkpoint_summary.wire();
        let pa2 = pa1 + v.checkpoint_contents.wire();
        let pa3 = pa2 + v.transactions.wire();
        assert(wire_at(s, at, pa3)) by {
            assert(pa3 =~= v.wire());
        }
        lemma_wire_split(s, at, pa2, v.transactions.wire());
        lemma_wire_split(s, at, pa1, v.checkpoint_contents.wire());
        assert(wire_at(s, at, d1.wire()));
        <CertifiedCheckpointSummary as Wire>::wire_prefix_free(s, at, d1, &v.checkpoint_summary);
        assert(at + pa1.len() == e1);
        assert(wire_at(s, e1, v.checkpoint_contents.wire()));
        assert(false);
    }
}

#[verifier::rlimit(100)]
#[verifier::spinoff_prover]
proof fn lemma_checkpoint_data_stuck_2(s: Seq<char>, at: int, d1: &CertifiedCheckpointSummary, e1: int)
    requires
        0 <= at <= s.len(),
        at <= e1 <= s.len(),
        s.subrange(at, e1) == d1.wire(),
        forall|x: CheckpointContents| !wire_at(s, e1, x.wire()),
    ensures
        forall|v: CheckpointData| !wire_at(s, at, v.wire()),
{
    assert forall|v: CheckpointData| !wire_at(s, at, v.wire()) by {
        if wire_at(s, at, v.wire()) {
            lemma_checkpoint_data_stuck_2_at(s, at, d1, e1, &v);
        }
    }
}

/// No value of this type can begin here when its next part is missing.
#[verifier::rlimit(100)]
#[verifier::spinoff_prover]
proof fn lemma_checkpoint_data_stuck_3_at(s: Seq<char>, at: int, d1: &CertifiedCheckpointSummary, d2: &CheckpointContents, e1: int, e2: int, v: &CheckpointData)
    requires
        0 <= at <= s.len(),
        at <= e1 <= s.len(),
        s.subrange(at, e1) == d1.wire(),
        e1 <= e2 <= s.len(),
        s.subrange(e1, e2) == d2.wire(),
        forall|x: Vec<CheckpointTransaction>| !wire_at(s, e2, x.wire()),
    ensures
        !wire_at(s, at, v.wire()),
{
    if wire_at(s, at, v.wire()) {
        let pa1 = v.checkpoint_summary.wire();
        let pa2 = pa1 + v.checkpoint_contents.wire();
        let pa3 = pa2 + v.transactions.wire();
        assert(wire_at(s, at, pa3)) by {
            assert(pa3 =~= v.wire());
        }
        lemma_wire_split(s, at, pa2, v.transactions.wire());
        lemma_wire_split(s, at, pa1, v.checkpoint_contents.wire());
        assert(wire_at(s, at, d1.wire()));
        <CertifiedCheckpointSummary as Wire>::wire_prefix_free(s, at, d1, &v.checkpoint_summary);
        assert(at + pa1.len() == e1);
        assert(wire_at(s, e1, d2.wire()));
        <CheckpointContents as Wire>::wire_prefix_free(s, e1, d2, &v.checkpoint_contents);
        assert(at + pa2.len() == e2);
        assert(wire_at(s, e2, v.transactions.wire()));
        assert(false);
    }
}

#[verifier::rlimit(100)]
#[verifier::spinoff_prover]
proof fn lemma_checkpoint_data_stuck_3(s: Seq<char>, at: int, d1: &CertifiedCheckpointSummary, d2: &CheckpointContents, e1: int, e2: int)
    requires
        0 <= at <= s.len(),
        at <= e1 <= s.len(),
        s.subrange(at, e1) == d1.wire(),
        e1 <= e2 <= s.len(),
        s.subrange(e1, e2) == d2.wire(),
        forall|x: Vec<CheckpointTransaction>| !wire_at(s, e2, x.wire()),
    ensures
        forall|v: CheckpointData| !wire_at(s, at, v.wire()),
{
    assert forall|v: CheckpointData| !wire_at(s, at, v.wire()) by {
        if wire_at(s, at, v.wire()) {
            lemma_checkpoint_data_stuck_3_at(s, at, d1, d2, e1, e2, &v);
        }
    }
}

impl Wire for CheckpointData {
    open spec fn wire(&self) -> Seq<char> {
        self.checkpoint_summary.wire() + self.checkpoint_contents.wire() + self.transactions.wire()
    }

    open spec fn eqv(&self, other: &Self) -> bool {
        self.checkpoint_summary.eqv(&other.checkpoint_summary) && self.checkpoint_contents.eqv(&other.checkpoint_contents) && self.transactions.eqv(&other.transactions)
    }

    proof fn wire_nonempty(v: &Self) {
        <CertifiedCheckpointSummary as Wire>::wire_nonempty(&v.checkpoint_summary);
    }

    fn write(&self, out: &mut String) {
        self.checkpoint_summary.write(out);
        self.checkpoint_contents.write(out);
        self.transactions.write(out);
        proof {
            assert(final(out)@ =~= old(out)@ + self.wire());
        }
    }

    #[verifier::rlimit(100)]
    #[verifier::spinoff_prover]
    fn read(s: &str, at: usize) -> (r: Option<(Self, usize)>) {
        let (checkpoint_summary, e1) = match <CertifiedCheckpointSummary as Wire>::read(s, at) {
            Some(p) => p,
            None => {
                proof {
                    lemma_checkpoint_data_stuck_1(s@, at as int);
                }
                return None;
            },
        };
        let (checkpoint_contents, e2) = match <CheckpointContents as Wire>::read(s, e1) {
            Some(p) => p,
            None => {
                proof {
                    lemma_checkpoint_data_stuck_2(s@, at as int, &checkpoint_summary, e1 as int);
                }
                return None;
            },
        };
        let (transactions, e3) = match <Vec<CheckpointTransaction> as Wire>::read(s, e2) {
            Some(p) => p,
            None => {
                proof {
                    lemma_checkpoint_data_stuck_3(s@, at as int, &checkpoint_summary, &checkpoint_contents, e1 as int, e2 as int);
                }
                return None;
            },
        };
        let v = CheckpointData { checkpoint_summary, checkpoint_contents, transactions };
        proof {
            assert(s@.subrange(at as int, e3 as int) =~= v.wire());
        }
        Some((v, e3))
    }

    proof fn wire_prefix_free(s: Seq<char>, at: int, v1: &Self, v2: &Self) {
        let p1a = v1.checkpoint_summary.wire();
        let p2a = p1a + v1.checkpoint_contents.wire();
        let p3a = p2a + v1.transactions.wire();
        let p1b = v2.checkpoint_summary.wire();
        let p2b = p1b + v2.checkpoint_contents.wire();
        let p3b = p2b + v2.transactions.wire();
        assert(wire_at(s, at, p3a)) by {
            assert(p3a =~= v1.wire());
        }
        assert(wire_at(s, at, p3b)) by {
            assert(p3b =~= v2.wire());
        }
        lemma_wire_split(s, at, p2a, v1.transactions.wire());
        lemma_wire_split(s, at, p2b, v2.transactions.wire());
        lemma_wire_split(s, at, p1a, v1.checkpoint_contents.wire());
        lemma_wire_split(s, at, p1b, v2.checkpoint_contents.wire());
        <CertifiedCheckpointSummary as Wire>::wire_prefix_free(s, at, &v1.checkpoint_summary, &v2.checkpoint_summary);
        assert(p1a == p1b);
        <CheckpointContents as Wire>::wire_prefix_free(s, at + p1a.len(), &v1.checkpoint_contents, &v2.checkpoint_contents);
        assert(p2a == p2b);
        <Vec<CheckpointTransaction> as Wire>::wire_prefix_free(s, at + p2a.len(), &v1.transactions, &v2.transactions);
        assert(v1.wire() =~= v2.wire());
    }
}


/// No value of this type begins with a character that is not one of
/// its variant tags.
#[verifier::rlimit(100)]
#[verifier::spinoff_prover]
proof fn lemma_owner_no_tag(s: Seq<char>, at: int)
    requires
        0 <= at < s.len(),
        s[at] != 'a' && s[at] != 'b' && s[at] != 'c' && s[at] != 'd',
    ensures
        forall|v: Owner| !wire_at(s, at, v.wire()),
{
    assert forall|v: Owner| !wire_at(s, at, v.wire()) by {
        if wire_at(s, at, v.wire()) {
            <Owner as Wire>::wire_nonempty(&v);
            match v {
            Owner::AddressOwner(x_owner_address) => {
                assert(s.subrange(at, at + v.wire().len())[0] == v.wire()[0]);
                assert(s[at] == 'a');
                assert(false);
            },
            Owner::ObjectOwner(x_owner_object) => {
                assert(s.subrange(at, at + v.wire().len())[0] == v.wire()[0]);
                assert(s[at] == 'b');
                assert(false);
            },
            Owner::Shared { initial_shared_version: x_initial_shared_version } => {
                assert(s.subrange(at, at + v.wire().len())[0] == v.wire()[0]);
                assert(s[at] == 'c');
                assert(false);
            },
            Owner::Immutable => {
                assert(s.subrange(at, at + v.wire().len())[0] == v.wire()[0]);
                assert(s[at] == 'd');
                assert(false);
            },
            }
        }
    }
}

/// The contradiction behind the lemma below, for one hypothesized
/// value.
#[verifier::rlimit(100)]
#[verifier::spinoff_prover]
proof fn lemma_owner_address_owner_stuck_1_at(s: Seq<char>, at: int, v: &Owner)
    requires
        0 <= at < s.len(),
        s[at] == 'a',
        forall|x: String| !wire_at(s, at + 1, x.wire()),
    ensures
        !wire_at(s, at, v.wire()),
{
    if wire_at(s, at, v.wire()) {
                <Owner as Wire>::wire_nonempty(&v);
                match v {
                Owner::AddressOwner(x_owner_address) => {
                    let pa0 = seq!['a'];
                    let pa1 = pa0 + x_owner_address.wire();
                    assert(wire_at(s, at, pa1)) by {
                        assert(pa1 =~= v.wire());
                    }
                    lemma_wire_split(s, at, pa0, x_owner_address.wire());
                    assert(wire_at(s, at + 1, x_owner_address.wire()));
                    assert(false);
                },
                Owner::ObjectOwner(x_owner_object) => {
                    assert(s.subrange(at, at + v.wire().len())[0] == v.wire()[0]);
                    assert(s[at] == 'b');
                    assert(false);
                },
                Owner::Shared { initial_shared_version: x_initial_shared_version } => {
                    assert(s.subrange(at, at + v.wire().len())[0] == v.wire()[0]);
                    assert(s[at] == 'c');
                    assert(false);
                },
                Owner::Immutable => {
                    assert(s.subrange(at, at + v.wire().len())[0] == v.wire()[0]);
                    assert(s[at] == 'd');
                    assert(false);
                },
                }
    }
}

/// No value of this type can begin here when this variant's next part
/// is missing.
#[verifier::rlimit(100)]
#[verifier::spinoff_prover]
proof fn lemma_owner_address_owner_stuck_1(s: Seq<char>, at: int)
    requires
        0 <= at < s.len(),
        s[at] == 'a',
        forall|x: String| !wire_at(s, at + 1, x.wire()),
    ensures
        forall|v: Owner| !wire_at(s, at, v.wire()),
{
    assert forall|v: Owner| !wire_at(s, at, v.wire()) by {
        if wire_at(s, at, v.wire()) {
            lemma_owner_address_owner_stuck_1_at(s, at, &v);
        }
    }
}

/// The contradiction behind the lemma below, for one hypothesized
/// value.
#[verifier::rlimit(100)]
#[verifier::spinoff_prover]
proof fn lemma_owner_object_owner_stuck_1_at(s: Seq<char>, at: int, v: &Owner)
    requires
        0 <= at < s.len(),
        s[at] == 'b',
        forall|x: String| !wire_at(s, at + 1, x.wire()),
    ensures
        !wire_at(s, at, v.wire()),
{
    if wire_at(s, at, v.wire()) {
                <Owner as Wire>::wire_nonempty(&v);
                match v {
                Owner::AddressOwner(x_owner_address) => {
                    assert(s.subrange(at, at + v.wire().len())[0] == v.wire()[0]);
                    assert(s[at] == 'a');
                    assert(false);
                },
                Owner::ObjectOwner(x_owner_object) => {
                    let pa0 = seq!['b'];
                    let pa1 = pa0 + x_owner_object.wire();
                    assert(wire_at(s, at, pa1)) by {
                        assert(pa1 =~= v.wire());
                    }
                    lemma_wire_split(s, at, pa0, x_owner_object.wire());
                    assert(wire_at(s, at + 1, x_owner_object.wire()));
                    assert(false);
                },
                Owner::Shared { initial_shared_version: x_initial_shared_version } => {
                    assert(s.subrange(at, at + v.wire().len())[0] == v.wire()[0]);
                    assert(s[at] == 'c');
                    assert(false);
                },
                Owner::Immutable => {
                    assert(s.subrange(at, at + v.wire().len())[0] == v.wire()[0]);
                    assert(s[at] == 'd');
                    assert(false);
                },
                }
    }
}

/// No value of this type can begin here when this variant's next part
/// is missing.
#[verifier::rlimit(100)]
#[verifier::spinoff_prover]
proof fn lemma_owner_object_owner_stuck_1(s: Seq<char>, at: int)
    requires
        0 <= at < s.len(),
        s[at] == 'b',
        forall|x: String| !wire_at(s, at + 1, x.wire()),
    ensures
        forall|v: Owner| !wire_at(s, at, v.wire()),
{
    assert forall|v: Owner| !wire_at(s, at, v.wire()) by {
        if wire_at(s, at, v.wire()) {
            lemma_owner_object_owner_stuck_1_at(s, at, &v);
        }
    }
}

/// The contradiction behind the lemma below, for one hypothesized
/// value.
#[verifier::rlimit(100)]
#[verifier::spinoff_prover]
proof fn lemma_owner_shared_stuck_1_at(s: Seq<char>, at: int, v: &Owner)
    requires
        0 <= at < s.len(),
        s[at] == 'c',
        forall|x: u64| !wire_at(s, at + 1, x.wire()),
    ensures
        !wire_at(s, at, v.wire()),
{
    if wire_at(s, at, v.wire()) {
                <Owner as Wire>::wire_nonempty(&v);
                match v {
                Owner::AddressOwner(x_owner_address) => {
                    assert(s.subrange(at, at + v.wire().len())[0] == v.wire()[0]);
                    assert(s[at] == 'a');
                    assert(false);
                },
                Owner::ObjectOwner(x_owner_object) => {
                    assert(s.subrange(at, at + v.wire().len())[0] == v.wire()[0]);
                    assert(s[at] == 'b');
                    assert(false);
                },
                Owner::Shared { initial_shared_version: x_initial_shared_version } => {
                    let pa0 = seq!['c'];
                    let pa1 = pa0 + x_initial_shared_version.wire();
                    assert(wire_at(s, at, pa1)) by {
                        assert(pa1 =~= v.wire());
                    }
                    lemma_wire_split(s, at, pa0, x_initial_shared_version.wire());
                    assert(wire_at(s, at + 1, x_initial_shared_version.wire()));
                    assert(false);
                },
                Owner::Immutable => {
                    assert(s.subrange(at, at + v.wire().len())[0] == v.wire()[0]);
                    assert(s[at] == 'd');
                    assert(false);
                },
                }
    }
}

/// No value of this type can begin here when this variant's next part
/// is missing.
#[verifier::rlimit(100)]
#[verifier::spinoff_prover]
proof fn lemma_owner_shared_stuck_1(s: Seq<char>, at: int)
    requires
        0 <= at < s.len(),
        s[at] == 'c',
        forall|x: u64| !wire_at(s, at + 1, x.wire()),
    ensures
        forall|v: Owner| !wire_at(s, at, v.wire()),
{
    assert forall|v: Owner| !wire_at(s, at, v.wire()) by {
        if wire_at(s, at, v.wire()) {
            lemma_owner_shared_stuck_1_at(s, at, &v);
        }
    }
}

impl Wire for Owner {
    open spec fn wire(&self) -> Seq<char> {
        match self {
            Owner::AddressOwner(owner_address) => seq!['a'] + owner_address.wire(),
            Owner::ObjectOwner(owner_object) => seq!['b'] + owner_object.wire(),
            Owner::Shared { initial_shared_version } => seq!['c'] + initial_shared_version.wire(),
            Owner::Immutable => seq!['d'],
        }
    }

    open spec fn eqv(&self, other: &Self) -> bool {
        match (self, other) {
            (Owner::AddressOwner(a_owner_address), Owner::AddressOwner(b_owner_address)) => a_owner_address.eqv(b_owner_address),
            (Owner::ObjectOwner(a_owner_object), Owner::ObjectOwner(b_owner_object)) => a_owner_object.eqv(b_owner_object),
            (Owner::Shared { initial_shared_version: a_initial_shared_version }, Owner::Shared { initial_shared_version: b_initial_shared_version }) => a_initial_shared_version == b_initial_shared_version,
            (Owner::Immutable, Owner::Immutable) => true,
            _ => false,
        }
    }

    proof fn wire_nonempty(v: &Self) {
        match v {
            Owner::AddressOwner(owner_address) => {
                assert(v.wire()[0] == 'a');
            },
            Owner::ObjectOwner(owner_object) => {
                assert(v.wire()[0] == 'b');
            },
            Owner::Shared { initial_shared_version } => {
                assert(v.wire()[0] == 'c');
            },
            Owner::Immutable => {},
        }
    }

    fn write(&self, out: &mut String) {
        match self {
            Owner::AddressOwner(owner_address) => {
                out.append("a");
                owner_address.write(out);
                proof {
                    reveal_strlit("a");
                    assert(final(out)@ =~= old(out)@ + self.wire());
                }
            },
            Owner::ObjectOwner(owner_object) => {
                out.append("b");
                owner_object.write(out);
                proof {
                    reveal_strlit("b");
                    assert(final(out)@ =~= old(out)@ + self.wire());
                }
            },
            Owner::Shared { initial_shared_version } => {
                out.append("c");
                initial_shared_version.write(out);
                proof {
                    reveal_strlit("c");
                    assert(final(out)@ =~= old(out)@ + self.wire());
                }
            },
            Owner::Immutable => {
                out.append("d");

                proof {
                    reveal_strlit("d");
                    assert(final(out)@ =~= old(out)@ + self.wire());
                }
            },
        }
    }

    fn read(s: &str, at: usize) -> (r: Option<(Self, usize)>) {
        let n: usize = s.unicode_len();
        if at >= n {
            proof {
                assert forall|v: Self| !wire_at(s@, at as int, v.wire()) by {
                    if wire_at(s@, at as int, v.wire()) {
                        Self::wire_nonempty(&v);
                    }
                }
            }
            return None;
        }
        let tag = s.get_char(at);
        if tag == 'a' {
            let (d_owner_address, g1) = match <String as Wire>::read(s, at + 1) {
                Some(p) => p,
                None => {
                    proof {
                        lemma_owner_address_owner_stuck_1(s@, at as int);
                    }
                    return None;
                },
            };
            let v = Owner::AddressOwner(d_owner_address);
            proof {
                assert(s@.subrange(at as int, g1 as int) =~= v.wire());
            }
            Some((v, g1))
        } else if tag == 'b' {
            let (d_owner_object, g1) = match <String as Wire>::read(s, at + 1) {
                Some(p) => p,
                None => {
                    proof {
                        lemma_owner_object_owner_stuck_1(s@, at as int);
                    }
                    return None;
                },
            };
            let v = Owner::ObjectOwner(d_owner_object);
            proof {
                assert(s@.subrange(at as int, g1 as int) =~= v.wire());
            }
            Some((v, g1))
        } else if tag == 'c' {
            let (d_initial_shared_version, g1) = match <u64 as Wire>::read(s, at + 1) {
                Some(p) => p,
                None => {
                    proof {
                        lemma_owner_shared_stuck_1(s@, at as int);
                    }
                    return None;
                },
            };
            let v = Owner::Shared { initial_shared_version: d_initial_shared_version };
            proof {
                assert(s@.subrange(at as int, g1 as int) =~= v.wire());
            }
            Some((v, g1))
        } else if tag == 'd' {
            let v = Owner::Immutable;
            proof {
                assert(s@.subrange(at as int, at + 1) =~= v.wire());
            }
            Some((v, at + 1))
        } else {
            proof {
                lemma_owner_no_tag(s@, at as int);
            }
            None
        }
    }

    proof fn wire_prefix_free(s: Seq<char>, at: int, v1: &Self, v2: &Self) {
        assert(s[at] == v1.wire()[0]);
        assert(s[at] == v2.wire()[0]);
        match (v1, v2) {
            (Owner::AddressOwner(a_owner_address), Owner::AddressOwner(b_owner_address)) => {
                let q0a = seq!['a'];
                let q1a = q0a + a_owner_address.wire();
                let q0b = seq!['a'];
                let q1b = q0b + b_owner_address.wire();
                assert(wire_at(s, at, q1a)) by {
                    assert(q1a =~= v1.wire());
                }
                assert(wire_at(s, at, q1b)) by {
                    assert(q1b =~= v2.wire());
                }
                lemma_wire_split(s, at, q0a, a_owner_address.wire());
                lemma_wire_split(s, at, q0b, b_owner_address.wire());
                <String as Wire>::wire_prefix_free(s, at + 1, a_owner_address, b_owner_address);
                assert(v1.wire() =~= v2.wire());
            },
            (Owner::ObjectOwner(a_owner_object), Owner::ObjectOwner(b_owner_object)) => {
                let q0a = seq!['b'];
                let q1a = q0a + a_owner_object.wire();
                let q0b = seq!['b'];
                let q1b = q0b + b_owner_object.wire();
                assert(wire_at(s, at, q1a)) by {
                    assert(q1a =~= v1.wire());
                }
                assert(wire_at(s, at, q1b)) by {
                    assert(q1b =~= v2.wire());
                }
                lemma_wire_split(s, at, q0a, a_owner_object.wire());
                lemma_wire_split(s, at, q0b, b_owner_object.wire());
                <String as Wire>::wire_prefix_free(s, at + 1, a_owner_object, b_owner_object);
                assert(v1.wire() =~= v2.wire());
            },
            (Owner::Shared { initial_shared_version: a_initial_shared_version }, Owner::Shared { initial_shared_version: b_initial_shared_version }) => {
                let q0a = seq!['c'];
                let q1a = q0a + a_initial_shared_version.wire();
                let q0b = seq!['c'];
                let q1b = q0b + b_initial_shared_version.wire();
                assert(wire_at(s, at, q1a)) by {
                    assert(q1a =~= v1.wire());
                }
                assert(wire_at(s, at, q1b)) by {
                    assert(q1b =~= v2.wire());
                }
                lemma_wire_split(s, at, q0a, a_initial_shared_version.wire());
                lemma_wire_split(s, at, q0b, b_initial_shared_version.wire());
                <u64 as Wire>::wire_prefix_free(s, at + 1, a_initial_shared_version, b_initial_shared_version);
                assert(v1.wire() =~= v2.wire());
            },
            (Owner::Immutable, Owner::Immutable) => {},
            _ => {
                assert(false);
            },
        }
    }
}


/// No value of this type begins with a character that is not one of
/// its variant tags.
#[verifier::rlimit(100)]
#[verifier::spinoff_prover]
proof fn lemma_transaction_status_no_tag(s: Seq<char>, at: int)
    requires
        0 <= at < s.len(),
        s[at] != 'k' && s[at] != 'f',
    ensures
        forall|v: TransactionStatus| !wire_at(s, at, v.wire()),
{
    assert forall|v: TransactionStatus| !wire_at(s, at, v.wire()) by {
        if wire_at(s, at, v.wire()) {
            <TransactionStatus as Wire>::wire_nonempty(&v);
            match v {
            TransactionStatus::Success => {
                assert(s.subrange(at, at + v.wire().len())[0] == v.wire()[0]);
                assert(s[at] == 'k');
                assert(false);
            },
            TransactionStatus::Failure { error: x_error } => {
                assert(s.subrange(at, at + v.wire().len())[0] == v.wire()[0]);
                assert(s[at] == 'f');
                assert(false);
            },
            }
        }
    }
}

/// The contradiction behind the lemma below, for one hypothesized
/// value.
#[verifier::rlimit(100)]
#[verifier::spinoff_prover]
proof fn lemma_transaction_status_failure_stuck_1_at(s: Seq<char>, at: int, v: &TransactionStatus)
    requires
        0 <= at < s.len(),
        s[at] == 'f',
        forall|x: String| !wire_at(s, at + 1, x.wire()),
    ensures
        !wire_at(s, at, v.wire()),
{
    if wire_at(s, at, v.wire()) {
                <TransactionStatus as Wire>::wire_nonempty(&v);
                match v {
                TransactionStatus::Success => {
                    assert(s.subrange(at, at + v.wire().len())[0] == v.wire()[0]);
                    assert(s[at] == 'k');
                    assert(false);
                },
                TransactionStatus::Failure { error: x_error } => {
                    let pa0 = seq!['f'];
                    let pa1 = pa0 + x_error.wire();
                    assert(wire_at(s, at, pa1)) by {
                        assert(pa1 =~= v.wire());
                    }
                    lemma_wire_split(s, at, pa0, x_error.wire());
                    assert(wire_at(s, at + 1, x_error.wire()));
                    assert(false);
                },
                }
    }
}

/// No value of this type can begin here when this variant's next part
/// is missing.
#[verifier::rlimit(100)]
#[verifier::spinoff_prover]
proof fn lemma_transaction_status_failure_stuck_1(s: Seq<char>, at: int)
    requires
        0 <= at < s.len(),
        s[at] == 'f',
        forall|x: String| !wire_at(s, at + 1, x.wire()),
    ensures
        forall|v: TransactionStatus| !wire_at(s, at, v.wire()),
{
    assert forall|v: TransactionStatus| !wire_at(s, at, v.wire()) by {
        if wire_at(s, at, v.wire()) {
            lemma_transaction_status_failure_stuck_1_at(s, at, &v);
        }
    }
}

impl Wire for TransactionStatus {
    open spec fn wire(&self) -> Seq<char> {
        match self {
            TransactionStatus::Success => seq!['k'],
            TransactionStatus::Failure { error } => seq!['f'] + error.wire(),
        }
    }

    open spec fn eqv(&self, other: &Self) -> bool {
        match (self, other) {
            (TransactionStatus::Success, TransactionStatus::Success) => true,
            (TransactionStatus::Failure { error: a_error }, TransactionStatus::Failure { error: b_error }) => a_error.eqv(b_error),
            _ => false,
        }
    }

    proof fn wire_nonempty(v: &Self) {
        match v {
            TransactionStatus::Success => {},
            TransactionStatus::Failure { error } => {
                assert(v.wire()[0] == 'f');
            },
        }
    }

    fn write(&self, out: &mut String) {
        match self {
            TransactionStatus::Success => {
                out.append("k");

                proof {
                    reveal_strlit("k");
                    assert(final(out)@ =~= old(out)@ + self.wire());
                }
            },
            TransactionStatus::Failure { error } => {
                out.append("f");
                error.write(out);
                proof {
                    reveal_strlit("f");
                    assert(final(out)@ =~= old(out)@ + self.wire());
                }
            },
        }
    }

    fn read(s: &str, at: usize) -> (r: Option<(Self, usize)>) {
        let n: usize = s.unicode_len();
        if at >= n {
            proof {
                assert forall|v: Self| !wire_at(s@, at as int, v.wire()) by {
                    if wire_at(s@, at as int, v.wire()) {
                        Self::wire_nonempty(&v);
                    }
                }
            }
            return None;
        }
        let tag = s.get_char(at);
        if tag == 'k' {
            let v = TransactionStatus::Success;
            proof {
                assert(s@.subrange(at as int, at + 1) =~= v.wire());
            }
            Some((v, at + 1))
        } else if tag == 'f' {
            let (d_error, g1) = match <String as Wire>::read(s, at + 1) {
                Some(p) => p,
                None => {
                    proof {
                        lemma_transaction_status_failure_stuck_1(s@, at as int);
                    }
                    return None;
                },
            };
            let v = TransactionStatus::Failure { error: d_error };
            proof {
                assert(s@.subrange(at as int, g1 as int) =~= v.wire());
            }
            Some((v, g1))
        } else {
            proof {
                lemma_transaction_status_no_tag(s@, at as int);
            }
            None
        }
    }

    proof fn wire_prefix_free(s: Seq<char>, at: int, v1: &Self, v2: &Self) {
        assert(s[at] == v1.wire()[0]);
        assert(s[at] == v2.wire()[0]);
        match (v1, v2) {
            (TransactionStatus::Success, TransactionStatus::Success) => {},
            (TransactionStatus::Failure { error: a_error }, TransactionStatus::Failure { error: b_error }) => {
                let q0a = seq!['f'];
                let q1a = q0a + a_error.wire();
                let q0b = seq!['f'];
                let q1b = q0b + b_error.wire();
                assert(wire_at(s, at, q1a)) by {
                    assert(q1a =~= v1.wire());
                }
                assert(wire_at(s, at, q1b)) by {
                    assert(q1b =~= v2.wire());
                }
                lemma_wire_split(s, at, q0a, a_error.wire());
                lemma_wire_split(s, at, q0b, b_error.wire());
                <String as Wire>::wire_prefix_free(s, at + 1, a_error, b_error);
                assert(v1.wire() =~= v2.wire());
            },
            _ => {
                assert(false);
            },
        }
    }
}


/// No value of this type begins with a character that is not one of
/// its variant tags.
#[verifier::rlimit(100)]
#[verifier::spinoff_prover]
proof fn lemma_transaction_kind_no_tag(s: Seq<char>, at: int)
    requires
        0 <= at < s.len(),
        s[at] != 'g' && s[at] != 't' && s[at] != 'p' && s[at] != 'u' && s[at] != 'y' && s[at] != 'o',
    ensures
        forall|v: TransactionKind| !wire_at(s, at, v.wire()),
{
    assert forall|v: TransactionKind| !wire_at(s, at, v.wire()) by {
        if wire_at(s, at, v.wire()) {
            <TransactionKind as Wire>::wire_nonempty(&v);
            match v {
            TransactionKind::ProgrammableTransaction => {
                assert(s.subrange(at, at + v.wire().len())[0] == v.wire()[0]);
                assert(s[at] == 'g');
                assert(false);
            },
            TransactionKind::Transfer => {
                assert(s.subrange(at, at + v.wire().len())[0] == v.wire()[0]);
                assert(s[at] == 't');
                assert(false);
            },
            TransactionKind::Publish => {
                assert(s.subrange(at, at + v.wire().len())[0] == v.wire()[0]);
                assert(s[at] == 'p');
                assert(false);
            },
            TransactionKind::Upgrade => {
                assert(s.subrange(at, at + v.wire().len())[0] == v.wire()[0]);
                assert(s[at] == 'u');
                assert(false);
            },
            TransactionKind::SystemTransaction => {
                assert(s.subrange(at, at + v.wire().len())[0] == v.wire()[0]);
                assert(s[at] == 'y');
                assert(false);
            },
            TransactionKind::Other(x_other_kind) => {
                assert(s.subrange(at, at + v.wire().len())[0] == v.wire()[0]);
                assert(s[at] == 'o');
                assert(false);
            },
            }
        }
    }
}

/// The contradiction behind the lemma below, for one hypothesized
/// value.
#[verifier::rlimit(100)]
#[verifier::spinoff_prover]
proof fn lemma_transaction_kind_other_stuck_1_at(s: Seq<char>, at: int, v: &TransactionKind)
    requires
        0 <= at < s.len(),
        s[at] == 'o',
        forall|x: String| !wire_at(s, at + 1, x.wire()),
    ensures
        !wire_at(s, at, v.wire()),
{
    if wire_at(s, at, v.wire()) {
                <TransactionKind as Wire>::wire_nonempty(&v);
                match v {
                TransactionKind::ProgrammableTransaction => {
                    assert(s.subrange(at, at + v.wire().len())[0] == v.wire()[0]);
                    assert(s[at] == 'g');
                    assert(false);
                },
                TransactionKind::Transfer => {
                    assert(s.subrange(at, at + v.wire().len())[0] == v.wire()[0]);
                    assert(s[at] == 't');
                    assert(false);
                },
                TransactionKind::Publish => {
                    assert(s.subrange(at, at + v.wire().len())[0] == v.wire()[0]);
                    assert(s[at] == 'p');
                    assert(false);
                },
                TransactionKind::Upgrade => {
                    assert(s.subrange(at, at + v.wire().len())[0] == v.wire()[0]);
                    assert(s[at] == 'u');
                    assert(false);
                },
                TransactionKind::SystemTransaction => {
                    assert(s.subrange(at, at + v.wire().len())[0] == v.wire()[0]);
                    assert(s[at] == 'y');
                    assert(false);
                },
                TransactionKind::Other(x_other_kind) => {
                    let pa0 = seq!['o'];
                    let pa1 = pa0 + x_other_kind.wire();
                    assert(wire_at(s, at, pa1)) by {
                        assert(pa1 =~= v.wire());
                    }
                    lemma_wire_split(s, at, pa0, x_other_kind.wire());
                    assert(wire_at(s, at + 1, x_other_kind.wire()));
                    assert(false);
                },
                }
    }
}

/// No value of this type can begin here when this variant's next part
/// is missing.
#[verifier::rlimit(100)]
#[verifier::spinoff_prover]
proof fn lemma_transaction_kind_other_stuck_1(s: Seq<char>, at: int)
    requires
        0 <= at < s.len(),
        s[at] == 'o',
        forall|x: String| !wire_at(s, at + 1, x.wire()),
    ensures
        forall|v: TransactionKind| !wire_at(s, at, v.wire()),
{
    assert forall|v: TransactionKind| !wire_at(s, at, v.wire()) by {
        if wire_at(s, at, v.wire()) {
            lemma_transaction_kind_other_stuck_1_at(s, at, &v);
        }
    }
}

impl Wire for TransactionKind {
    open spec fn wire(&self) -> Seq<char> {
        match self {
            TransactionKind::ProgrammableTransaction => seq!['g'],
            TransactionKind::Transfer => seq!['t'],
            TransactionKind::Publish => seq!['p'],
            TransactionKind::Upgrade => seq!['u'],
            TransactionKind::SystemTransaction => seq!['y'],
            TransactionKind::Other(other_kind) => seq!['o'] + other_kind.wire(),
        }
    }

    open spec fn eqv(&self, other: &Self) -> bool {
        match (self, other) {
            (TransactionKind::ProgrammableTransaction, TransactionKind::ProgrammableTransaction) => true,
            (TransactionKind::Transfer, TransactionKind::Transfer) => true,
            (TransactionKind::Publish, TransactionKind::Publish) => true,
            (TransactionKind::Upgrade, TransactionKind::Upgrade) => true,
            (TransactionKind::SystemTransaction, TransactionKind::SystemTransaction) => true,
            (TransactionKind::Other(a_other_kind), TransactionKind::Other(b_other_kind)) => a_other_kind.eqv(b_other_kind),
            _ => false,
        }
    }

    proof fn wire_nonempty(v: &Self) {
        match v {
            TransactionKind::ProgrammableTransaction => {},
            TransactionKind::Transfer => {},
            TransactionKind::Publish => {},
            TransactionKind::Upgrade => {},
            TransactionKind::SystemTransaction => {},
            TransactionKind::Other(other_kind) => {
                assert(v.wire()[0] == 'o');
            },
        }
    }

    fn write(&self, out: &mut String) {
        match self {
            TransactionKind::ProgrammableTransaction => {
                out.append("g");

                proof {
                    reveal_strlit("g");
                    assert(final(out)@ =~= old(out)@ + self.wire());
                }
            },
            TransactionKind::Transfer => {
                out.append("t");

                proof {
                    reveal_strlit("t");
                    assert(final(out)@ =~= old(out)@ + self.wire());
                }
            },
            TransactionKind::Publish => {
                out.append("p");

                proof {
                    reveal_strlit("p");
                    assert(final(out)@ =~= old(out)@ + self.wire());
                }
            },
            TransactionKind::Upgrade => {
                out.append("u");

                proof {
                    reveal_strlit("u");
                    assert(final(out)@ =~= old(out)@ + self.wire());
                }
            },
            TransactionKind::SystemTransaction => {
                out.append("y");

                proof {
                    reveal_strlit("y");
                    assert(final(out)@ =~= old(out)@ + self.wire());
                }
            },
            TransactionKind::Other(other_kind) => {
                out.append("o");
                other_kind.write(out);
                proof {
                    reveal_strlit("o");
                    assert(final(out)@ =~= old(out)@ + self.wire());
                }
            },
        }
    }

    fn read(s: &str, at: usize) -> (r: Option<(Self, usize)>) {
        let n: usize = s.unicode_len();
        if at >= n {
            proof {
                assert forall|v: Self| !wire_at(s@, at as int, v.wire()) by {
                    if wire_at(s@, at as int, v.wire()) {
                        Self::wire_nonempty(&v);
                    }
                }
            }
            return None;
        }
        let tag = s.get_char(at);
        if tag == 'g' {
            let v = TransactionKind::ProgrammableTransaction;
            proof {
                assert(s@.subrange(at as int, at + 1) =~= v.wire());
            }
            Some((v, at + 1))
        } else if tag == 't' {
            let v = TransactionKind::Transfer;
            proof {
                assert(s@.subrange(at as int, at + 1) =~= v.wire());
            }
            Some((v, at + 1))
        } else if tag == 'p' {
            let v = TransactionKind::Publish;
            proof {
                assert(s@.subrange(at as int, at + 1) =~= v.wire());
            }
            Some((v, at + 1))
        } else if tag == 'u' {
            let v = TransactionKind::Upgrade;
            proof {
                assert(s@.subrange(at as int, at + 1) =~= v.wire());
            }
            Some((v, at + 1))
        } else if tag == 'y' {
            let v = TransactionKind::SystemTransaction;
            proof {
                assert(s@.subrange(at as int, at + 1) =~= v.wire());
            }
            Some((v, at + 1))
        } else if tag == 'o' {
            let (d_other_kind, g1) = match <String as Wire>::read(s, at + 1) {
                Some(p) => p,
                None => {
                    proof {
                        lemma_transaction_kind_other_stuck_1(s@, at as int);
                    }
                    return None;
                },
            };
            let v = TransactionKind::Other(d_other_kind);
            proof {
                assert(s@.subrange(at as int, g1 as int) =~= v.wire());
            }
            Some((v, g1))
        } else {
            proof {
                lemma_transaction_kind_no_tag(s@, at as int);
            }
            None
        }
    }

    proof fn wire_prefix_free(s: Seq<char>, at: int, v1: &Self, v2: &Self) {
        assert(s[at] == v1.wire()[0]);
        assert(s[at] == v2.wire()[0]);
        match (v1, v2) {
            (TransactionKind::ProgrammableTransaction, TransactionKind::ProgrammableTransaction) => {},
            (TransactionKind::Transfer, TransactionKind::Transfer) => {},
            (TransactionKind::Publish, TransactionKind::Publish) => {},
            (TransactionKind::Upgrade, TransactionKind::Upgrade) => {},
            (TransactionKind::SystemTransaction, TransactionKind::SystemTransaction) => {},
            (TransactionKind::Other(a_other_kind), TransactionKind::Other(b_other_kind)) => {
                let q0a = seq!['o'];
                let q1a = q0a + a_other_kind.wire();
                let q0b = seq!['o'];
                let q1b = q0b + b_other_kind.wire();
                assert(wire_at(s, at, q1a)) by {
                    assert(q1a =~= v1.wire());
                }
                assert(wire_at(s, at, q1b)) by {
                    assert(q1b =~= v2.wire());
                }
                lemma_wire_split(s, at, q0a, a_other_kind.wire());
                lemma_wire_split(s, at, q0b, b_other_kind.wire());
                <String as Wire>::wire_prefix_free(s, at + 1, a_other_kind, b_other_kind);
                assert(v1.wire() =~= v2.wire());
            },
            _ => {
                assert(false);
            },
        }
    }
}


/// No value of this type begins with a character that is not one of
/// its variant tags.
#[verifier::rlimit(100)]
#[verifier::spinoff_prover]
proof fn lemma_transaction_input_no_tag(s: Seq<char>, at: int)
    requires
        0 <= at < s.len(),
        s[at] != 'r' && s[at] != 'j' && s[at] != 'h',
    ensures
        forall|v: TransactionInput| !wire_at(s, at, v.wire()),
{
    assert forall|v: TransactionInput| !wire_at(s, at, v.wire()) by {
        if wire_at(s, at, v.wire()) {
            <TransactionInput as Wire>::wire_nonempty(&v);
            match v {
            TransactionInput::Pure { bytes: x_bytes } => {
                assert(s.subrange(at, at + v.wire().len())[0] == v.wire()[0]);
                assert(s[at] == 'r');
                assert(false);
            },
            TransactionInput::Object { object_id: x_object_id, version: x_version, digest: x_digest } => {
                assert(s.subrange(at, at + v.wire().len())[0] == v.wire()[0]);
                assert(s[at] == 'j');
                assert(false);
            },
            TransactionInput::SharedObject { object_id: x_object_id, initial_shared_version: x_initial_shared_version } => {
                assert(s.subrange(at, at + v.wire().len())[0] == v.wire()[0]);
                assert(s[at] == 'h');
                assert(false);
            },
            }
        }
    }
}

/// The contradiction behind the lemma below, for one hypothesized
/// value.
#[verifier::rlimit(100)]
#[verifier::spinoff_prover]
proof fn lemma_transaction_input_pure_stuck_1_at(s: Seq<char>, at: int, v: &TransactionInput)
    requires
        0 <= at < s.len(),
        s[at] == 'r',
        forall|x: String| !wire_at(s, at + 1, x.wire()),
    ensures
        !wire_at(s, at, v.wire()),
{
    if wire_at(s, at, v.wire()) {
                <TransactionInput as Wire>::wire_nonempty(&v);
                match v {
                TransactionInput::Pure { bytes: x_bytes } => {
                    let pa0 = seq!['r'];
                    let pa1 = pa0 + x_bytes.wire();
                    assert(wire_at(s, at, pa1)) by {
                        assert(pa1 =~= v.wire());
                    }
                    lemma_wire_split(s, at, pa0, x_bytes.wire());
                    assert(wire_at(s, at + 1, x_bytes.wire()));
                    assert(false);
                },
                TransactionInput::Object { object_id: x_object_id, version: x_version, digest: x_digest } => {
                    assert(s.subrange(at, at + v.wire().len())[0] == v.wire()[0]);
                    assert(s[at] == 'j');
                    assert(false);
                },
                TransactionInput::SharedObject { object_id: x_object_id, initial_shared_version: x_initial_shared_version } => {
                    assert(s.subrange(at, at + v.wire().len())[0] == v.wire()[0]);
                    assert(s[at] == 'h');
                    assert(false);
                },
                }
    }
}

/// No value of this type can begin here when this variant's next part
/// is missing.
#[verifier::rlimit(100)]
#[verifier::spinoff_prover]
proof fn lemma_transaction_input_pure_stuck_1(s: Seq<char>, at: int)
    requires
        0 <= at < s.len(),
        s[at] == 'r',
        forall|x: String| !wire_at(s, at + 1, x.wire()),
    ensures
        forall|v: TransactionInput| !wire_at(s, at, v.wire()),
{
    assert forall|v: TransactionInput| !wire_at(s, at, v.wire()) by {
        if wire_at(s, at, v.wire()) {
            lemma_transaction_input_pure_stuck_1_at(s, at, &v);
        }
    }
}

/// The contradiction behind the lemma below, for one hypothesized
/// value.
#[verifier::rlimit(100)]
#[verifier::spinoff_prover]
proof fn lemma_transaction_input_object_stuck_1_at(s: Seq<char>, at: int, v: &TransactionInput)
    requires
        0 <= at < s.len(),
        s[at] == 'j',
        forall|x: String| !wire_at(s, at + 1, x.wire()),
    ensures
        !wire_at(s, at, v.wire()),
{
    if wire_at(s, at, v.wire()) {
                <TransactionInput as Wire>::wire_nonempty(&v);
                match v {
                TransactionInput::Pure { bytes: x_bytes } => {
                    assert(s.subrange(at, at + v.wire().len())[0] == v.wire()[0]);
                    assert(s[at] == 'r');
                    assert(false);
                },
                TransactionInput::Object { object_id: x_object_id, version: x_version, digest: x_digest } => {
                    let pa0 = seq!['j'];
                    let pa1 = pa0 + x_object_id.wire();
                    let pa2 = pa1 + x_version.wire();
                    let pa3 = pa2 + x_digest.wire();
                    assert(wire_at(s, at, pa3)) by {
                        assert(pa3 =~= v.wire());
                    }
                    lemma_wire_split(s, at, pa2, x_digest.wire());
                    lemma_wire_split(s, at, pa1, x_version.wire());
                    lemma_wire_split(s, at, pa0, x_object_id.wire());
                    assert(wire_at(s, at + 1, x_object_id.wire()));
                    assert(false);
                },
                TransactionInput::SharedObject { object_id: x_object_id, initial_shared_version: x_initial_shared_version } => {
                    assert(s.subrange(at, at + v.wire().len())[0] == v.wire()[0]);
                    assert(s[at] == 'h');
                    assert(false);
                },
                }
    }
}

/// No value of this type can begin here when this variant's next part
/// is missing.
#[verifier::rlimit(100)]
#[verifier::spinoff_prover]
proof fn lemma_transaction_input_object_stuck_1(s: Seq<char>, at: int)
    requires
        0 <= at < s.len(),
        s[at] == 'j',
        forall|x: String| !wire_at(s, at + 1, x.wire()),
    ensures
        forall|v: TransactionInput| !wire_at(s, at, v.wire()),
{
    assert forall|v: TransactionInput| !wire_at(s, at, v.wire()) by {
        if wire_at(s, at, v.wire()) {
            lemma_transaction_input_object_stuck_1_at(s, at, &v);
        }
    }
}

/// The contradiction behind the lemma below, for one hypothesized
/// value.
#[verifier::rlimit(100)]
#[verifier::spinoff_prover]
proof fn lemma_transaction_input_object_stuck_2_at(s: Seq<char>, at: int, d1: &String, g1: int, v: &TransactionInput)
    requires
        0 <= at < s.len(),
        s[at] == 'j',
        at + 1 <= g1 <= s.len(),
        s.subrange(at + 1, g1) == d1.wire(),
        forall|x: u64| !wire_at(s, g1, x.wire()),
    ensures
        !wire_at(s, at, v.wire()),
{
    if wire_at(s, at, v.wire()) {
                <TransactionInput as Wire>::wire_nonempty(&v);
                match v {
                TransactionInput::Pure { bytes: x_bytes } => {
                    assert(s.subrange(at, at + v.wire().len())[0] == v.wire()[0]);
                    assert(s[at] == 'r');
                    assert(false);
                },
                TransactionInput::Object { object_id: x_object_id, version: x_version, digest: x_digest } => {
                    let pa0 = seq!['j'];
                    let pa1 = pa0 + x_object_id.wire();
                    let pa2 = pa1 + x_version.wire();
                    let pa3 = pa2 + x_digest.wire();
                    assert(wire_at(s, at, pa3)) by {
                        assert(pa3 =~= v.wire());
                    }
                    lemma_wire_split(s, at, pa2, x_digest.wire());
                    lemma_wire_split(s, at, pa1, x_version.wire());
                    lemma_wire_split(s, at, pa0, x_object_id.wire());
                    assert(wire_at(s, at + 1, d1.wire()));
                    <String as Wire>::wire_prefix_free(s, at + 1, d1, &x_object_id);
                    assert(at + pa1.len() == g1);
                    assert(wire_at(s, g1, x_version.wire()));
                    assert(false);
                },
                TransactionInput::SharedObject { object_id: x_object_id, initial_shared_version: x_initial_shared_version } => {
                    assert(s.subrange(at, at + v.wire().len())[0] == v.wire()[0]);
                    assert(s[at] == 'h');
                    assert(false);
                },
                }
    }
}

/// No value of this type can begin here when this variant's next part
/// is missing.
#[verifier::rlimit(100)]
#[verifier::spinoff_prover]
proof fn lemma_transaction_input_object_stuck_2(s: Seq<char>, at: int, d1: &String, g1: int)
    requires
        0 <= at < s.len(),
        s[at] == 'j',
        at + 1 <= g1 <= s.len(),
        s.subrange(at + 1, g1) == d1.wire(),
        forall|x: u64| !wire_at(s, g1, x.wire()),
    ensures
        forall|v: TransactionInput| !wire_at(s, at, v.wire()),
{
    assert forall|v: TransactionInput| !wire_at(s, at, v.wire()) by {
        if wire_at(s, at, v.wire()) {
            lemma_transaction_input_object_stuck_2_at(s, at, d1, g1, &v);
        }
    }
}

/// The contradiction behind the lemma below, for one hypothesized
/// value.
#[verifier::rlimit(100)]
#[verifier::spinoff_prover]
proof fn lemma_transaction_input_object_stuck_3_at(s: Seq<char>, at: int, d1: &String, d2: &u64, g1: int, g2: int, v: &TransactionInput)
    requires
        0 <= at < s.len(),
        s[at] == 'j',
        at + 1 <= g1 <= s.len(),
        s.subrange(at + 1, g1) == d1.wire(),
        g1 <= g2 <= s.len(),
        s.subrange(g1, g2) == d2.wire(),
        forall|x: String| !wire_at(s, g2, x.wire()),
    ensures
        !wire_at(s, at, v.wire()),
{
    if wire_at(s, at, v.wire()) {
                <TransactionInput as Wire>::wire_nonempty(&v);
                match v {
                TransactionInput::Pure { bytes: x_bytes } => {
                    assert(s.subrange(at, at + v.wire().len())[0] == v.wire()[0]);
                    assert(s[at] == 'r');
                    assert(false);
                },
                TransactionInput::Object { object_id: x_object_id, version: x_version, digest: x_digest } => {
                    let pa0 = seq!['j'];
                    let pa1 = pa0 + x_object_id.wire();
                    let pa2 = pa1 + x_version.wire();
                    let pa3 = pa2 + x_digest.wire();
                    assert(wire_at(s, at, pa3)) by {
                        assert(pa3 =~= v.wire());
                    }
                    lemma_wire_split(s, at, pa2, x_digest.wire());
                    lemma_wire_split(s, at, pa1, x_version.wire());
                    lemma_wire_split(s, at, pa0, x_object_id.wire());
                    assert(wire_at(s, at + 1, d1.wire()));
                    <String as Wire>::wire_prefix_free(s, at + 1, d1, &x_object_id);
                    assert(at + pa1.len() == g1);
                    assert(wire_at(s, g1, d2.wire()));
                    <u64 as Wire>::wire_prefix_free(s, g1, d2, &x_version);
                    assert(at + pa2.len() == g2);
                    assert(wire_at(s, g2, x_digest.wire()));
                    assert(false);
                },
                TransactionInput::SharedObject { object_id: x_object_id, initial_shared_version: x_initial_shared_version } => {
                    assert(s.subrange(at, at + v.wire().len())[0] == v.wire()[0]);
                    assert(s[at] == 'h');
                    assert(false);
                },
                }
    }
}

/// No value of this type can begin here when this variant's next part
/// is missing.
#[verifier::rlimit(100)]
#[verifier::spinoff_prover]
proof fn lemma_transaction_input_object_stuck_3(s: Seq<char>, at: int, d1: &String, d2: &u64, g1: int, g2: int)
    requires
        0 <= at < s.len(),
        s[at] == 'j',
        at + 1 <= g1 <= s.len(),
        s.subrange(at + 1, g1) == d1.wire(),
        g1 <= g2 <= s.len(),
        s.subrange(g1, g2) == d2.wire(),
        forall|x: String| !wire_at(s, g2, x.wire()),
    ensures
        forall|v: TransactionInput| !wire_at(s, at, v.wire()),
{
    assert forall|v: TransactionInput| !wire_at(s, at, v.wire()) by {
        if wire_at(s, at, v.wire()) {
            lemma_transaction_input_object_stuck_3_at(s, at, d1, d2, g1, g2, &v);
        }
    }
}

/// The contradiction behind the lemma below, for one hypothesized
/// value.
#[verifier::rlimit(100)]
#[verifier::spinoff_prover]
proof fn lemma_transaction_input_shared_object_stuck_1_at(s: Seq<char>, at: int, v: &TransactionInput)
    requires
        0 <= at < s.len(),
        s[at] == 'h',
        forall|x: String| !wire_at(s, at + 1, x.wire()),
    ensures
        !wire_at(s, at, v.wire()),
{
    if wire_at(s, at, v.wire()) {
                <TransactionInput as Wire>::wire_nonempty(&v);
                match v {
                TransactionInput::Pure { bytes: x_bytes } => {
                    assert(s.subrange(at, at + v.wire().len())[0] == v.wire()[0]);
                    assert(s[at] == 'r');
                    assert(false);
                },
                TransactionInput::Object { object_id: x_object_id, version: x_version, digest: x_digest } => {
                    assert(s.subrange(at, at + v.wire().len())[0] == v.wire()[0]);
                    assert(s[at] == 'j');
                    assert(false);
                },
                TransactionInput::SharedObject { object_id: x_object_id, initial_shared_version: x_initial_shared_version } => {
                    let pa0 = seq!['h'];
                    let pa1 = pa0 + x_object_id.wire();
                    let pa2 = pa1 + x_initial_shared_version.wire();
                    assert(wire_at(s, at, pa2)) by {
                        assert(pa2 =~= v.wire());
                    }
                    lemma_wire_split(s, at, pa1, x_initial_shared_version.wire());
                    lemma_wire_split(s, at, pa0, x_object_id.wire());
                    assert(wire_at(s, at + 1, x_object_id.wire()));
                    assert(false);
                },
                }
    }
}

/// No value of this type can begin here when this variant's next part
/// is missing.
#[verifier::rlimit(100)]
#[verifier::spinoff_prover]
proof fn lemma_transaction_input_shared_object_stuck_1(s: Seq<char>, at: int)
    requires
        0 <= at < s.len(),
        s[at] == 'h',
        forall|x: String| !wire_at(s, at + 1, x.wire()),
    ensures
        forall|v: TransactionInput| !wire_at(s, at, v.wire()),
{
    assert forall|v: TransactionInput| !wire_at(s, at, v.wire()) by {
        if wire_at(s, at, v.wire()) {
            lemma_transaction_input_shared_object_stuck_1_at(s, at, &v);
        }
    }
}

/// The contradiction behind the lemma below, for one hypothesized
/// value.
#[verifier::rlimit(100)]
#[verifier::spinoff_prover]
proof fn lemma_transaction_input_shared_object_stuck_2_at(s: Seq<char>, at: int, d1: &String, g1: int, v: &TransactionInput)
    requires
        0 <= at < s.len(),
        s[at] == 'h',
        at + 1 <= g1 <= s.len(),
        s.subrange(at + 1, g1) == d1.wire(),
        forall|x: u64| !wire_at(s, g1, x.wire()),
    ensures
        !wire_at(s, at, v.wire()),
{
    if wire_at(s, at, v.wire()) {
                <TransactionInput as Wire>::wire_nonempty(&v);
                match v {
                TransactionInput::Pure { bytes: x_bytes } => {
                    assert(s.subrange(at, at + v.wire().len())[0] == v.wire()[0]);
                    assert(s[at] == 'r');
                    assert(false);
                },
                TransactionInput::Object { object_id: x_object_id, version: x_version, digest: x_digest } => {
                    assert(s.subrange(at, at + v.wire().len())[0] == v.wire()[0]);
                    assert(s[at] == 'j');
                    assert(false);
                },
                TransactionInput::SharedObject { object_id: x_object_id, initial_shared_version: x_initial_shared_version } => {
                    let pa0 = seq!['h'];
                    let pa1 = pa0 + x_object_id.wire();
                    let pa2 = pa1 + x_initial_shared_version.wire();
                    assert(wire_at(s, at, pa2)) by {
                        assert(pa2 =~= v.wire());
                    }
                    lemma_wire_split(s, at, pa1, x_initial_shared_version.wire());
                    lemma_wire_split(s, at, pa0, x_object_id.wire());
                    assert(wire_at(s, at + 1, d1.wire()));
                    <String as Wire>::wire_prefix_free(s, at + 1, d1, &x_object_id);
                    assert(at + pa1.len() == g1);
                    assert(wire_at(s, g1, x_initial_shared_version.wire()));
                    assert(false);
                },
                }
    }
}

/// No value of this type can begin here when this variant's next part
/// is missing.
#[verifier::rlimit(100)]
#[verifier::spinoff_prover]
proof fn lemma_transaction_input_shared_object_stuck_2(s: Seq<char>, at: int, d1: &String, g1: int)
    requires
        0 <= at < s.len(),
        s[at] == 'h',
        at + 1 <= g1 <= s.len(),
        s.subrange(at + 1, g1) == d1.wire(),
        forall|x: u64| !wire_at(s, g1, x.wire()),
    ensures
        forall|v: TransactionInput| !wire_at(s, at, v.wire()),
{
    assert forall|v: TransactionInput| !wire_at(s, at, v.wire()) by {
        if wire_at(s, at, v.wire()) {
            lemma_transaction_input_shared_object_stuck_2_at(s, at, d1, g1, &v);
        }
    }
}

impl Wire for TransactionInput {
    open spec fn wire(&self) -> Seq<char> {
        match self {
            TransactionInput::Pure { bytes } => seq!['r'] + bytes.wire(),
            TransactionInput::Object { object_id, version, digest } => seq!['j'] + object_id.wire() + version.wire() + digest.wire(),
            TransactionInput::SharedObject { object_id, initial_shared_version } => seq!['h'] + object_id.wire() + initial_shared_version.wire(),
        }
    }

    open spec fn eqv(&self, other: &Self) -> bool {
        match (self, other) {
            (TransactionInput::Pure { bytes: a_bytes }, TransactionInput::Pure { bytes: b_bytes }) => a_bytes.eqv(b_bytes),
            (TransactionInput::Object { object_id: a_object_id, version: a_version, digest: a_digest }, TransactionInput::Object { object_id: b_object_id, version: b_version, digest: b_digest }) => a_object_id.eqv(b_object_id) && a_version == b_version && a_digest.eqv(b_digest),
            (TransactionInput::SharedObject { object_id: a_object_id, initial_shared_version: a_initial_shared_version }, TransactionInput::SharedObject { object_id: b_object_id, initial_shared_version: b_initial_shared_version }) => a_object_id.eqv(b_object_id) && a_initial_shared_version == b_initial_shared_version,
            _ => false,
        }
    }

    proof fn wire_nonempty(v: &Self) {
        match v {
            TransactionInput::Pure { bytes } => {
                assert(v.wire()[0] == 'r');
            },
            TransactionInput::Object { object_id, version, digest } => {
                assert(v.wire()[0] == 'j');
            },
            TransactionInput::SharedObject { object_id, initial_shared_version } => {
                assert(v.wire()[0] == 'h');
            },
        }
    }

    #[verifier::rlimit(100)]
    #[verifier::spinoff_prover]
    fn write(&self, out: &mut String) {
        match self {
            TransactionInput::Pure { bytes } => {
                out.append("r");
                bytes.write(out);
                proof {
                    reveal_strlit("r");
                    assert(final(out)@ =~= old(out)@ + self.wire());
                }
            },
            TransactionInput::Object { object_id, version, digest } => {
                out.append("j");
                object_id.write(out);
                version.write(out);
                digest.write(out);
                proof {
                    reveal_strlit("j");
                    assert(final(out)@ =~= old(out)@ + self.wire());
                }
            },
            TransactionInput::SharedObject { object_id, initial_shared_version } => {
                out.append("h");
                object_id.write(out);
                initial_shared_version.write(out);
                proof {
                    reveal_strlit("h");
                    assert(final(out)@ =~= old(out)@ + self.wire());
                }
            },
        }
    }

    #[verifier::rlimit(100)]
    #[verifier::spinoff_prover]
    fn read(s: &str, at: usize) -> (r: Option<(Self, usize)>) {
        let n: usize = s.unicode_len();
        if at >= n {
            proof {
                assert forall|v: Self| !wire_at(s@, at as int, v.wire()) by {
                    if wire_at(s@, at as int, v.wire()) {
                        Self::wire_nonempty(&v);
                    }
                }
            }
            return None;
        }
        let tag = s.get_char(at);
        if tag == 'r' {
            let (d_bytes, g1) = match <String as Wire>::read(s, at + 1) {
                Some(p) => p,
                None => {
                    proof {
                        lemma_transaction_input_pure_stuck_1(s@, at as int);
                    }
                    return None;
                },
            };
            let v = TransactionInput::Pure { bytes: d_bytes };
            proof {
                assert(s@.subrange(at as int, g1 as int) =~= v.wire());
            }
            Some((v, g1))
        } else if tag == 'j' {
            let (d_object_id, g1) = match <String as Wire>::read(s, at + 1) {
                Some(p) => p,
                None => {
                    proof {
                        lemma_transaction_input_object_stuck_1(s@, at as int);
                    }
                    return None;
                },
            };
            let (d_version, g2) = match <u64 as Wire>::read(s, g1) {
                Some(p) => p,
                None => {
                    proof {
                        lemma_transaction_input_object_stuck_2(s@, at as int, &d_object_id, g1 as int);
                    }
                    return None;
                },
            };
            let (d_digest, g3) = match <String as Wire>::read(s, g2) {
                Some(p) => p,
                None => {
                    proof {
                        lemma_transaction_input_object_stuck_3(s@, at as int, &d_object_id, &d_version, g1 as int, g2 as int);
                    }
                    return None;
                },
            };
            let v = TransactionInput::Object { object_id: d_object_id, version: d_version, digest: d_digest };
            proof {
                assert(s@.subrange(at as int, g3 as int) =~= v.wire());
            }
            Some((v, g3))
        } else if tag == 'h' {
            let (d_object_id, g1) = match <String as Wire>::read(s, at + 1) {
                Some(p) => p,
                None => {
                    proof {
                        lemma_transaction_input_shared_object_stuck_1(s@, at as int);
                    }
                    return None;
                },
            };
            let (d_initial_shared_version, g2) = match <u64 as Wire>::read(s, g1) {
                Some(p) => p,
                None => {
                    proof {
                        lemma_transaction_input_shared_object_stuck_2(s@, at as int, &d_object_id, g1 as int);
                    }
                    return None;
                },
            };
            let v = TransactionInput::SharedObject { object_id: d_object_id, initial_shared_version: d_initial_shared_version };
            proof {
                assert(s@.subrange(at as int, g2 as int) =~= v.wire());
            }
            Some((v, g2))
        } else {
            proof {
                lemma_transaction_input_no_tag(s@, at as int);
            }
            None
        }
    }

    #[verifier::rlimit(100)]
    #[verifier::spinoff_prover]
    proof fn wire_prefix_free(s: Seq<char>, at: int, v1: &Self, v2: &Self) {
        assert(s[at] == v1.wire()[0]);
        assert(s[at] == v2.wire()[0]);
        match (v1, v2) {
            (TransactionInput::Pure { bytes: a_bytes }, TransactionInput::Pure { bytes: b_bytes }) => {
                let q0a = seq!['r'];
                let q1a = q0a + a_bytes.wire();
                let q0b = seq!['r'];
                let q1b = q0b + b_bytes.wire();
                assert(wire_at(s, at, q1a)) by {
                    assert(q1a =~= v1.wire());
                }
                assert(wire_at(s, at, q1b)) by {
                    assert(q1b =~= v2.wire());
                }
                lemma_wire_split(s, at, q0a, a_bytes.wire());
                lemma_wire_split(s, at, q0b, b_bytes.wire());
                <String as Wire>::wire_prefix_free(s, at + 1, a_bytes, b_bytes);
                assert(v1.wire() =~= v2.wire());
            },
            (TransactionInput::Object { object_id: a_object_id, version: a_version, digest: a_digest }, TransactionInput::Object { object_id: b_object_id, version: b_version, digest: b_digest }) => {
                let q0a = seq!['j'];
                let q1a = q0a + a_object_id.wire();
                let q2a = q1a + a_version.wire();
                let q3a = q2a + a_digest.wire();
                let q0b = seq!['j'];
                let q1b = q0b + b_object_id.wire();
                let q2b = q1b + b_version.wire();
                let q3b = q2b + b_digest.wire();
                assert(wire_at(s, at, q3a)) by {
                    assert(q3a =~= v1.wire());
                }
                assert(wire_at(s, at, q3b)) by {
                    assert(q3b =~= v2.wire());
                }
                lemma_wire_split(s, at, q2a, a_digest.wire());
                lemma_wire_split(s, at, q2b, b_digest.wire());
                lemma_wire_split(s, at, q1a, a_version.wire());
                lemma_wire_split(s, at, q1b, b_version.wire());
                lemma_wire_split(s, at, q0a, a_object_id.wire());
                lemma_wire_split(s, at, q0b, b_object_id.wire());
                <String as Wire>::wire_prefix_free(s, at + 1, a_object_id, b_object_id);
                assert(q1a == q1b);
                <u64 as Wire>::wire_prefix_free(s, at + q1a.len(), a_version, b_version);
                assert(q2a == q2b);
                <String as Wire>::wire_prefix_free(s, at + q2a.len(), a_digest, b_digest);
                assert(v1.wire() =~= v2.wire());
            },
            (TransactionInput::SharedObject { object_id: a_object_id, initial_shared_version: a_initial_shared_version }, TransactionInput::SharedObject { object_id: b_object_id, initial_shared_version: b_initial_shared_version }) => {
                let q0a = seq!['h'];
                let q1a = q0a + a_object_id.wire();
                let q2a = q1a + a_initial_shared_version.wire();
                let q0b = seq!['h'];
                let q1b = q0b + b_object_id.wire();
                let q2b = q1b + b_initial_shared_version.wire();
                assert(wire_at(s, at, q2a)) by {
                    assert(q2a =~= v1.wire());
                }
                assert(wire_at(s, at, q2b)) by {
                    assert(q2b =~= v2.wire());
                }
                lemma_wire_split(s, at, q1a, a_initial_shared_version.wire());
                lemma_wire_split(s, at, q1b, b_initial_shared_version.wire());
                lemma_wire_split(s, at, q0a, a_object_id.wire());
                lemma_wire_split(s, at, q0b, b_object_id.wire());
                <String as Wire>::wire_prefix_free(s, at + 1, a_object_id, b_object_id);
                assert(q1a == q1b);
                <u64 as Wire>::wire_prefix_free(s, at + q1a.len(), a_initial_shared_version, b_initial_shared_version);
                assert(v1.wire() =~= v2.wire());
            },
            _ => {
                assert(false);
            },
        }
    }
}


/// No value of this type begins with a character that is not one of
/// its variant tags.
#[verifier::rlimit(100)]
#[verifier::spinoff_prover]
proof fn lemma_object_change_kind_no_tag(s: Seq<char>, at: int)
    requires
        0 <= at < s.len(),
        s[at] != 'c' && s[at] != 'm' && s[at] != 't' && s[at] != 'd' && s[at] != 'w' && s[at] != 'u',
    ensures
        forall|v: ObjectChangeKind| !wire_at(s, at, v.wire()),
{
    assert forall|v: ObjectChangeKind| !wire_at(s, at, v.wire()) by {
        if wire_at(s, at, v.wire()) {
            <ObjectChangeKind as Wire>::wire_nonempty(&v);
            match v {
            ObjectChangeKind::Created => {
                assert(s.subrange(at, at + v.wire().len())[0] == v.wire()[0]);
                assert(s[at] == 'c');
                assert(false);
            },
            ObjectChangeKind::Mutated => {
                assert(s.subrange(at, at + v.wire().len())[0] == v.wire()[0]);
                assert(s[at] == 'm');
                assert(false);
            },
            ObjectChangeKind::Transferred => {
                assert(s.subrange(at, at + v.wire().len())[0] == v.wire()[0]);
                assert(s[at] == 't');
                assert(false);
            },
            ObjectChangeKind::Deleted => {
                assert(s.subrange(at, at + v.wire().len())[0] == v.wire()[0]);
                assert(s[at] == 'd');
                assert(false);
            },
            ObjectChangeKind::Wrapped => {
                assert(s.subrange(at, at + v.wire().len())[0] == v.wire()[0]);
                assert(s[at] == 'w');
                assert(false);
            },
            ObjectChangeKind::Unwrapped => {
                assert(s.subrange(at, at + v.wire().len())[0] == v.wire()[0]);
                assert(s[at] == 'u');
                assert(false);
            },
            }
        }
    }
}

impl Wire for ObjectChangeKind {
    open spec fn wire(&self) -> Seq<char> {
        match self {
            ObjectChangeKind::Created => seq!['c'],
            ObjectChangeKind::Mutated => seq!['m'],
            ObjectChangeKind::Transferred => seq!['t'],
            ObjectChangeKind::Deleted => seq!['d'],
            ObjectChangeKind::Wrapped => seq!['w'],
            ObjectChangeKind::Unwrapped => seq!['u'],
        }
    }

    open spec fn eqv(&self, other: &Self) -> bool {
        match (self, other) {
            (ObjectChangeKind::Created, ObjectChangeKind::Created) => true,
            (ObjectChangeKind::Mutated, ObjectChangeKind::Mutated) => true,
            (ObjectChangeKind::Transferred, ObjectChangeKind::Transferred) => true,
            (ObjectChangeKind::Deleted, ObjectChangeKind::Deleted) => true,
            (ObjectChangeKind::Wrapped, ObjectChangeKind::Wrapped) => true,
            (ObjectChangeKind::Unwrapped, ObjectChangeKind::Unwrapped) => true,
            _ => false,
        }
    }

    proof fn wire_nonempty(v: &Self) {
        match v {
            ObjectChangeKind::Created => {},
            ObjectChangeKind::Mutated => {},
            ObjectChangeKind::Transferred => {},
            ObjectChangeKind::Deleted => {},
            ObjectChangeKind::Wrapped => {},
            ObjectChangeKind::Unwrapped => {},
        }
    }

    fn write(&self, out: &mut String) {
        match self {
            ObjectChangeKind::Created => {
                out.append("c");

                proof {
                    reveal_strlit("c");
                    assert(final(out)@ =~= old(out)@ + self.wire());
                }
            },
            ObjectChangeKind::Mutated => {
                out.append("m");

                proof {
                    reveal_strlit("m");
                    assert(final(out)@ =~= old(out)@ + self.wire());
                }
            },
            ObjectChangeKind::Transferred => {
                out.append("t");

                proof {
                    reveal_strlit("t");
                    assert(final(out)@ =~= old(out)@ + self.wire());
                }
            },
            ObjectChangeKind::Deleted => {
                out.append("d");

                proof {
                    reveal_strlit("d");
                    assert(final(out)@ =~= old(out)@ + self.wire());
                }
            },
            ObjectChangeKind::Wrapped => {
                out.append("w");

                proof {
                    reveal_strlit("w");
                    assert(final(out)@ =~= old(out)@ + self.wire());
                }
            },
            ObjectChangeKind::Unwrapped => {
                out.append("u");

                proof {
                    reveal_strlit("u");
                    assert(final(out)@ =~= old(out)@ + self.wire());
                }
            },
        }
    }

    fn read(s: &str, at: usize) -> (r: Option<(Self, usize)>) {
        let n: usize = s.unicode_len();
        if at >= n {
            proof {
                assert forall|v: Self| !wire_at(s@, at as int, v.wire()) by {
                    if wire_at(s@, at as int, v.wire()) {
                        Self::wire_nonempty(&v);
                    }
                }
            }
            return None;
        }
        let tag = s.get_char(at);
        if tag == 'c' {
            let v = ObjectChangeKind::Created;
            proof {
                assert(s@.subrange(at as int, at + 1) =~= v.wire());
            }
            Some((v, at + 1))
        } else if tag == 'm' {
            let v = ObjectChangeKind::Mutated;
            proof {
                assert(s@.subrange(at as int, at + 1) =~= v.wire());
            }
            Some((v, at + 1))
        } else if tag == 't' {
            let v = ObjectChangeKind::Transferred;
            proof {
                assert(s@.subrange(at as int, at + 1) =~= v.wire());
            }
            Some((v, at + 1))
        } else if tag == 'd' {
            let v = ObjectChangeKind::Deleted;
            proof {
                assert(s@.subrange(at as int, at + 1) =~= v.wire());
            }
            Some((v, at + 1))
        } else if tag == 'w' {
            let v = ObjectChangeKind::Wrapped;
            proof {
                assert(s@.subrange(at as int, at + 1) =~= v.wire());
            }
            Some((v, at + 1))
        } else if tag == 'u' {
            let v = ObjectChangeKind::Unwrapped;
            proof {
                assert(s@.subrange(at as int, at + 1) =~= v.wire());
            }
            Some((v, at + 1))
        } else {
            proof {
                lemma_object_change_kind_no_tag(s@, at as int);
            }
            None
        }
    }

    proof fn wire_prefix_free(s: Seq<char>, at: int, v1: &Self, v2: &Self) {
        assert(s[at] == v1.wire()[0]);
        assert(s[at] == v2.wire()[0]);
        match (v1, v2) {
            (ObjectChangeKind::Created, ObjectChangeKind::Created) => {},
            (ObjectChangeKind::Mutated, ObjectChangeKind::Mutated) => {},
            (ObjectChangeKind::Transferred, ObjectChangeKind::Transferred) => {},
            (ObjectChangeKind::Deleted, ObjectChangeKind::Deleted) => {},
            (ObjectChangeKind::Wrapped, ObjectChangeKind::Wrapped) => {},
            (ObjectChangeKind::Unwrapped, ObjectChangeKind::Unwrapped) => {},
            _ => {
                assert(false);
            },
        }
    }
}


/// No value of this type begins with a character that is not one of
/// its variant tags.
#[verifier::rlimit(100)]
#[verifier::spinoff_prover]
proof fn lemma_ingestion_message_no_tag(s: Seq<char>, at: int)
    requires
        0 <= at < s.len(),
        s[at] != 'C' && s[at] != 'E' && s[at] != 'P' && s[at] != 'R' && s[at] != 'S',
    ensures
        forall|v: IngestionMessage| !wire_at(s, at, v.wire()),
{
    assert forall|v: IngestionMessage| !wire_at(s, at, v.wire()) by {
        if wire_at(s, at, v.wire()) {
            <IngestionMessage as Wire>::wire_nonempty(&v);
            match v {
            IngestionMessage::Checkpoint(x_checkpoint) => {
                assert(s.subrange(at, at + v.wire().len())[0] == v.wire()[0]);
                assert(s[at] == 'C');
                assert(false);
            },
            IngestionMessage::Error(x_error) => {
                assert(s.subrange(at, at + v.wire().len())[0] == v.wire()[0]);
                assert(s[at] == 'E');
                assert(false);
            },
            IngestionMessage::Paused => {
                assert(s.subrange(at, at + v.wire().len())[0] == v.wire()[0]);
                assert(s[at] == 'P');
                assert(false);
            },
            IngestionMessage::Resumed => {
                assert(s.subrange(at, at + v.wire().len())[0] == v.wire()[0]);
                assert(s[at] == 'R');
                assert(false);
            },
            IngestionMessage::Shutdown => {
                assert(s.subrange(at, at + v.wire().len())[0] == v.wire()[0]);
                assert(s[at] == 'S');
                assert(false);
            },
            }
        }
    }
}

/// The contradiction behind the lemma below, for one hypothesized
/// value.
#[verifier::rlimit(100)]
#[verifier::spinoff_prover]
proof fn lemma_ingestion_message_checkpoint_stuck_1_at(s: Seq<char>, at: int, v: &IngestionMessage)
    requires
        0 <= at < s.len(),
        s[at] == 'C',
        forall|x: CheckpointData| !wire_at(s, at + 1, x.wire()),
    ensures
        !wire_at(s, at, v.wire()),
{
    if wire_at(s, at, v.wire()) {
                <IngestionMessage as Wire>::wire_nonempty(&v);
                match v {
                IngestionMessage::Checkpoint(x_checkpoint) => {
                    let pa0 = seq!['C'];
                    let pa1 = pa0 + x_checkpoint.wire();
                    assert(wire_at(s, at, pa1)) by {
                        assert(pa1 =~= v.wire());
                    }
                    lemma_wire_split(s, at, pa0, x_checkpoint.wire());
                    assert(wire_at(s, at + 1, x_checkpoint.wire()));
                    assert(false);
                },
                IngestionMessage::Error(x_error) => {
                    assert(s.subrange(at, at + v.wire().len())[0] == v.wire()[0]);
                    assert(s[at] == 'E');
                    assert(false);
                },
                IngestionMessage::Paused => {
                    assert(s.subrange(at, at + v.wire().len())[0] == v.wire()[0]);
                    assert(s[at] == 'P');
                    assert(false);
                },
                IngestionMessage::Resumed => {
                    assert(s.subrange(at, at + v.wire().len())[0] == v.wire()[0]);
                    assert(s[at] == 'R');
                    assert(false);
                },
                IngestionMessage::Shutdown => {
                    assert(s.subrange(at, at + v.wire().len())[0] == v.wire()[0]);
                    assert(s[at] == 'S');
                    assert(false);
                },
                }
    }
}

/// No value of this type can begin here when this variant's next part
/// is missing.
#[verifier::rlimit(100)]
#[verifier::spinoff_prover]
proof fn lemma_ingestion_message_checkpoint_stuck_1(s: Seq<char>, at: int)
    requires
        0 <= at < s.len(),
        s[at] == 'C',
        forall|x: CheckpointData| !wire_at(s, at + 1, x.wire()),
    ensures
        forall|v: IngestionMessage| !wire_at(s, at, v.wire()),
{
    assert forall|v: IngestionMessage| !wire_at(s, at, v.wire()) by {
        if wire_at(s, at, v.wire()) {
            lemma_ingestion_message_checkpoint_stuck_1_at(s, at, &v);
        }
    }
}

/// The contradiction behind the lemma below, for one hypothesized
/// value.
#[verifier::rlimit(100)]
#[verifier::spinoff_prover]
proof fn lemma_ingestion_message_error_stuck_1_at(s: Seq<char>, at: int, v: &IngestionMessage)
    requires
        0 <= at < s.len(),
        s[at] == 'E',
        forall|x: String| !wire_at(s, at + 1, x.wire()),
    ensures
        !wire_at(s, at, v.wire()),
{
    if wire_at(s, at, v.wire()) {
                <IngestionMessage as Wire>::wire_nonempty(&v);
                match v {
                IngestionMessage::Checkpoint(x_checkpoint) => {
                    assert(s.subrange(at, at + v.wire().len())[0] == v.wire()[0]);
                    assert(s[at] == 'C');
                    assert(false);
                },
                IngestionMessage::Error(x_error) => {
                    let pa0 = seq!['E'];
                    let pa1 = pa0 + x_error.wire();
                    assert(wire_at(s, at, pa1)) by {
                        assert(pa1 =~= v.wire());
                    }
                    lemma_wire_split(s, at, pa0, x_error.wire());
                    assert(wire_at(s, at + 1, x_error.wire()));
                    assert(false);
                },
                IngestionMessage::Paused => {
                    assert(s.subrange(at, at + v.wire().len())[0] == v.wire()[0]);
                    assert(s[at] == 'P');
                    assert(false);
                },
                IngestionMessage::Resumed => {
                    assert(s.subrange(at, at + v.wire().len())[0] == v.wire()[0]);
                    assert(s[at] == 'R');
                    assert(false);
                },
                IngestionMessage::Shutdown => {
                    assert(s.subrange(at, at + v.wire().len())[0] == v.wire()[0]);
                    assert(s[at] == 'S');
                    assert(false);
                },
                }
    }
}

/// No value of this type can begin here when this variant's next part
/// is missing.
#[verifier::rlimit(100)]
#[verifier::spinoff_prover]
proof fn lemma_ingestion_message_error_stuck_1(s: Seq<char>, at: int)
    requires
        0 <= at < s.len(),
        s[at] == 'E',
        forall|x: String| !wire_at(s, at + 1, x.wire()),
    ensures
        forall|v: IngestionMessage| !wire_at(s, at, v.wire()),
{
    assert forall|v: IngestionMessage| !wire_at(s, at, v.wire()) by {
        if wire_at(s, at, v.wire()) {
            lemma_ingestion_message_error_stuck_1_at(s, at, &v);
        }
    }
}

/// Nothing can be read at or past the end of the text.
#[verifier::rlimit(100)]
#[verifier::spinoff_prover]
proof fn lemma_ingestion_message_past_end(s: Seq<char>, at: int)
    requires
        at >= s.len(),
    ensures
        forall|v: IngestionMessage| !wire_at(s, at, v.wire()),
{
    assert forall|v: IngestionMessage| !wire_at(s, at, v.wire()) by {
        if wire_at(s, at, v.wire()) {
            <IngestionMessage as Wire>::wire_nonempty(&v);
        }
    }
}

impl Wire for IngestionMessage {
    open spec fn wire(&self) -> Seq<char> {
        match self {
            IngestionMessage::Checkpoint(checkpoint) => seq!['C'] + checkpoint.wire(),
            IngestionMessage::Error(error) => seq!['E'] + error.wire(),
            IngestionMessage::Paused => seq!['P'],
            IngestionMessage::Resumed => seq!['R'],
            IngestionMessage::Shutdown => seq!['S'],
        }
    }

    open spec fn eqv(&self, other: &Self) -> bool {
        match (self, other) {
            (IngestionMessage::Checkpoint(a_checkpoint), IngestionMessage::Checkpoint(b_checkpoint)) => a_checkpoint.eqv(b_checkpoint),
            (IngestionMessage::Error(a_error), IngestionMessage::Error(b_error)) => a_error.eqv(b_error),
            (IngestionMessage::Paused, IngestionMessage::Paused) => true,
            (IngestionMessage::Resumed, IngestionMessage::Resumed) => true,
            (IngestionMessage::Shutdown, IngestionMessage::Shutdown) => true,
            _ => false,
        }
    }

    proof fn wire_nonempty(v: &Self) {
        match v {
            IngestionMessage::Checkpoint(checkpoint) => {
                assert(v.wire()[0] == 'C');
            },
            IngestionMessage::Error(error) => {
                assert(v.wire()[0] == 'E');
            },
            IngestionMessage::Paused => {},
            IngestionMessage::Resumed => {},
            IngestionMessage::Shutdown => {},
        }
    }

    #[verifier::rlimit(100)]
    #[verifier::spinoff_prover]
    fn write(&self, out: &mut String) {
        match self {
            IngestionMessage::Checkpoint(checkpoint) => {
                out.append("C");
                checkpoint.write(out);
                proof {
                    reveal_strlit("C");
                    assert(final(out)@ =~= old(out)@ + self.wire());
                }
            },
            IngestionMessage::Error(error) => {
                out.append("E");
                error.write(out);
                proof {
                    reveal_strlit("E");
                    assert(final(out)@ =~= old(out)@ + self.wire());
                }
            },
            IngestionMessage::Paused => {
                out.append("P");

                proof {
                    reveal_strlit("P");
                    assert(final(out)@ =~= old(out)@ + self.wire());
                }
            },
            IngestionMessage::Resumed => {
                out.append("R");

                proof {
                    reveal_strlit("R");
                    assert(final(out)@ =~= old(out)@ + self.wire());
                }
            },
            IngestionMessage::Shutdown => {
                out.append("S");

                proof {
                    reveal_strlit("S");
                    assert(final(out)@ =~= old(out)@ + self.wire());
                }
            },
        }
    }

    #[verifier::rlimit(100)]
    #[verifier::spinoff_prover]
    fn read(s: &str, at: usize) -> (r: Option<(Self, usize)>) {
        let n: usize = s.unicode_len();
        if at >= n {
            proof {
                lemma_ingestion_message_past_end(s@, at as int);
            }
            return None;
        }
        let tag = s.get_char(at);
        if tag == 'C' {
            let (d_checkpoint, g1) = match <CheckpointData as Wire>::read(s, at + 1) {
                Some(p) => p,
                None => {
                    proof {
                        lemma_ingestion_message_checkpoint_stuck_1(s@, at as int);
                    }
                    return None;
                },
            };
            let v = IngestionMessage::Checkpoint(d_checkpoint);
            proof {
                assert(s@.subrange(at as int, g1 as int) =~= v.wire());
            }
            Some((v, g1))
        } else if tag == 'E' {
            let (d_error, g1) = match <String as Wire>::read(s, at + 1) {
                Some(p) => p,
                None => {
                    proof {
                        lemma_ingestion_message_error_stuck_1(s@, at as int);
                    }
                    return None;
                },
            };
            let v = IngestionMessage::Error(d_error);
            proof {
                assert(s@.subrange(at as int, g1 as int) =~= v.wire());
            }
            Some((v, g1))
        } else if tag == 'P' {
            let v = IngestionMessage::Paused;
            proof {
                assert(s@.subrange(at as int, at + 1) =~= v.wire());
            }
            Some((v, at + 1))
        } else if tag == 'R' {
            let v = IngestionMessage::Resumed;
            proof {
                assert(s@.subrange(at as int, at + 1) =~= v.wire());
            }
            Some((v, at + 1))
        } else if tag == 'S' {
            let v = IngestionMessage::Shutdown;
            proof {
                assert(s@.subrange(at as int, at + 1) =~= v.wire());
            }
            Some((v, at + 1))
        } else {
            proof {
                lemma_ingestion_message_no_tag(s@, at as int);
            }
            None
        }
    }

    #[verifier::rlimit(100)]
    #[verifier::spinoff_prover]
    proof fn wire_prefix_free(s: Seq<char>, at: int, v1: &Self, v2: &Self) {
        assert(s[at] == v1.wire()[0]);
        assert(s[at] == v2.wire()[0]);
        match (v1, v2) {
            (IngestionMessage::Checkpoint(a_checkpoint), IngestionMessage::Checkpoint(b_checkpoint)) => {
                let q0a = seq!['C'];
                let q1a = q0a + a_checkpoint.wire();
                let q0b = seq!['C'];
                let q1b = q0b + b_checkpoint.wire();
                assert(wire_at(s, at, q1a)) by {
                    assert(q1a =~= v1.wire());
                }
                assert(wire_at(s, at, q1b)) by {
                    assert(q1b =~= v2.wire());
                }
                lemma_wire_split(s, at, q0a, a_checkpoint.wire());
                lemma_wire_split(s, at, q0b, b_checkpoint.wire());
                <CheckpointData as Wire>::wire_prefix_free(s, at + 1, a_checkpoint, b_checkpoint);
                assert(v1.wire() =~= v2.wire());
            },
            (IngestionMessage::Error(a_error), IngestionMessage::Error(b_error)) => {
                let q0a = seq!['E'];
                let q1a = q0a + a_error.wire();
                let q0b = seq!['E'];
                let q1b = q0b + b_error.wire();
                assert(wire_at(s, at, q1a)) by {
                    assert(q1a =~= v1.wire());
                }
                assert(wire_at(s, at, q1b)) by {
                    assert(q1b =~= v2.wire());
                }
                lemma_wire_split(s, at, q0a, a_error.wire());
                lemma_wire_split(s, at, q0b, b_error.wire());
                <String as Wire>::wire_prefix_free(s, at + 1, a_error, b_error);
                assert(v1.wire() =~= v2.wire());
            },
            (IngestionMessage::Paused, IngestionMessage::Paused) => {},
            (IngestionMessage::Resumed, IngestionMessage::Resumed) => {},
            (IngestionMessage::Shutdown, IngestionMessage::Shutdown) => {},
            _ => {
                assert(false);
            },
        }
    }
}

/// Renders a broadcast message as wire text.
pub fn encode_message(message: &IngestionMessage) -> (r: String)
    ensures
        r@ == message.wire(),
{
    let mut out = String::new();
    message.write(&mut out);
    out
}

/// Reads a broadcast message back from wire text, exactly: whatever it
/// accepts is the text's message, and it refuses exactly the texts that
/// are no message's wire form.
pub fn decode_message(s: &str) -> (r: Option<IngestionMessage>)
    ensures
        match r {
            Some(m) => s@ == m.wire(),
            None => forall|m: IngestionMessage| s@ != m.wire(),
        },
{
    let n: usize = s.unicode_len();
    match <IngestionMessage as Wire>::read(s, 0) {
        Some((m, end)) => {
            if end == n {
                proof {
                    assert(s@.subrange(0, s@.len() as int) =~= s@);
                }
                Some(m)
            } else {
                proof {
                    assert forall|m2: IngestionMessage| s@ != m2.wire() by {
                        if s@ == m2.wire() {
                            assert(wire_at(s@, 0, m2.wire())) by {
                                assert(s@.subrange(0, s@.len() as int) =~= s@);
                            }
                            assert(wire_at(s@, 0, m.wire()));
                            <IngestionMessage as Wire>::wire_prefix_free(s@, 0, &m, &m2);
                            assert(end == s@.len());
                            assert(false);
                        }
                    }
                }
                None
            }
        },
        None => {
            proof {
                assert forall|m2: IngestionMessage| s@ != m2.wire() by {
                    if s@ == m2.wire() {
                        assert(wire_at(s@, 0, m2.wire())) by {
                            assert(s@.subrange(0, s@.len() as int) =~= s@);
                        }
                    }
                }
            }
            None
        },
    }
}

/// Encoding and decoding a broadcast message preserves its variant and
/// payload: two messages with the same wire text have the same variant
/// and the same content, field for field (strings compared by their
/// characters). So decoding a message's wire text yields exactly that
/// message.
pub proof fn lemma_message_wire_round_trip(m1: IngestionMessage, m2: IngestionMessage)
    requires
        m1.wire() == m2.wire(),
    ensures
        m1.eqv(&m2),
{
    let s = m1.wire();
    assert(wire_at(s, 0, m1.wire())) by {
        assert(s.subrange(0, s.len() as int) =~= s);
    }
    assert(wire_at(s, 0, m2.wire()));
    <IngestionMessage as Wire>::wire_prefix_free(s, 0, &m1, &m2);
}

} // verus!
