//! The data payload of a seed: byte values under string keys, held in
//! ascending key order.
use vstd::prelude::*;
use vstd::string::StringSliceAdditionalSpecFns;
use vstd::utf8::{encode_utf8, encode_utf8_decode_utf8};

use crate::object::{pairs_map, lemma_pairs_map_absent, lemma_distinct_map};

verus! {

/// Lexicographic order on byte strings; a proper prefix comes first.
pub open spec fn bytes_lt(a: Seq<u8>, b: Seq<u8>) -> bool
    decreases a.len(),
{
    if a.len() == 0 {
        b.len() > 0
    } else if b.len() == 0 {
        false
    } else if a[0] != b[0] {
        a[0] < b[0]
    } else {
        bytes_lt(a.drop_first(), b.drop_first())
    }
}

/// Order of keys: the order of their UTF-8 encodings.
pub open spec fn key_lt(a: Seq<char>, b: Seq<char>) -> bool {
    bytes_lt(encode_utf8(a), encode_utf8(b))
}

pub proof fn lemma_bytes_lt_irreflexive(a: Seq<u8>)
    ensures
        !bytes_lt(a, a),
    decreases a.len(),
{
    if a.len() > 0 {
        lemma_bytes_lt_irreflexive(a.drop_first());
    }
}

pub proof fn lemma_bytes_lt_asymmetric(a: Seq<u8>, b: Seq<u8>)
    ensures
        !(bytes_lt(a, b) && bytes_lt(b, a)),
    decreases a.len(),
{
    if a.len() > 0 && b.len() > 0 && a[0] == b[0] {
        lemma_bytes_lt_asymmetric(a.drop_first(), b.drop_first());
    }
}

pub proof fn lemma_bytes_lt_transitive(a: Seq<u8>, b: Seq<u8>, c: Seq<u8>)
    requires
        bytes_lt(a, b),
        bytes_lt(b, c),
    ensures
        bytes_lt(a, c),
    decreases a.len(),
{
    if a.len() > 0 && b.len() > 0 && c.len() > 0 && a[0] == b[0] && b[0] == c[0] {
        lemma_bytes_lt_transitive(a.drop_first(), b.drop_first(), c.drop_first());
    }
}

pub proof fn lemma_bytes_lt_total(a: Seq<u8>, b: Seq<u8>)
    requires
        a != b,
    ensures
        bytes_lt(a, b) || bytes_lt(b, a),
    decreases a.len(),
{
    if a.len() > 0 && b.len() > 0 && a[0] == b[0] {
        if a.drop_first() == b.drop_first() {
            assert(a =~= seq![a[0]] + a.drop_first());
            assert(b =~= seq![b[0]] + b.drop_first());
        }
        lemma_bytes_lt_total(a.drop_first(), b.drop_first());
    } else if a.len() == 0 && b.len() == 0 {
        assert(a =~= b);
    }
}

/// `key_lt` is a strict total order.
pub proof fn lemma_key_lt_order()
    ensures
        forall|a: Seq<char>| !#[trigger] key_lt(a, a),
        forall|a: Seq<char>, b: Seq<char>| #[trigger] key_lt(a, b) ==> !key_lt(b, a),
        forall|a: Seq<char>, b: Seq<char>, c: Seq<char>|
            #[trigger] key_lt(a, b) && #[trigger] key_lt(b, c) ==> key_lt(a, c),
        forall|a: Seq<char>, b: Seq<char>| a != b ==> #[trigger] key_lt(a, b) || #[trigger] key_lt(b, a),
{
    assert forall|a: Seq<char>| !#[trigger] key_lt(a, a) by {
        lemma_bytes_lt_irreflexive(encode_utf8(a));
    }
    assert forall|a: Seq<char>, b: Seq<char>| #[trigger] key_lt(a, b) implies !key_lt(b, a) by {
        lemma_bytes_lt_asymmetric(encode_utf8(a), encode_utf8(b));
    }
    assert forall|a: Seq<char>, b: Seq<char>, c: Seq<char>|
        #[trigger] key_lt(a, b) && #[trigger] key_lt(b, c) implies key_lt(a, c) by {
        lemma_bytes_lt_transitive(encode_utf8(a), encode_utf8(b), encode_utf8(c));
    }
    assert forall|a: Seq<char>, b: Seq<char>| a != b implies #[trigger] key_lt(a, b) || #[trigger] key_lt(b, a) by {
        encode_utf8_decode_utf8(a);
        encode_utf8_decode_utf8(b);
        lemma_bytes_lt_total(encode_utf8(a), encode_utf8(b));
    }
}

/// Compares two keys: negative, zero or positive as `a` comes before, equals
/// or comes after `b`.
pub fn compare_keys(a: &str, b: &str) -> (r: i8)
    ensures
        r < 0 <==> key_lt(a@, b@),
        r == 0 <==> a@ == b@,
        r > 0 <==> key_lt(b@, a@),
{
    proof {
        lemma_key_lt_order();
        encode_utf8_decode_utf8(a@);
        encode_utf8_decode_utf8(b@);
    }
    let x = a.as_bytes();
    let y = b.as_bytes();
    let ghost xs = x@;
    let ghost ys = y@;
    assert(xs.subrange(0, xs.len() as int) =~= xs);
    assert(ys.subrange(0, ys.len() as int) =~= ys);
    let mut i: usize = 0;
    while i < x.len() && i < y.len()
        invariant
            x@ == xs,
            y@ == ys,
            xs == a.spec_bytes(),
            ys == b.spec_bytes(),
            0 <= i <= xs.len(),
            i <= ys.len(),
            xs.subrange(0, i as int) == ys.subrange(0, i as int),
            bytes_lt(xs, ys) == bytes_lt(xs.subrange(i as int, xs.len() as int), ys.subrange(i as int, ys.len() as int)),
            bytes_lt(ys, xs) == bytes_lt(ys.subrange(i as int, ys.len() as int), xs.subrange(i as int, xs.len() as int)),
        decreases xs.len() - i,
    {
        let ghost xr = xs.subrange(i as int, xs.len() as int);
        let ghost yr = ys.subrange(i as int, ys.len() as int);
        if x[i] < y[i] {
            assert(xr[0] == xs[i as int] && yr[0] == ys[i as int]);
            assert(xs != ys) by { assert(xs[i as int] != ys[i as int]); }
            return -1;
        }
        if x[i] > y[i] {
            assert(xr[0] == xs[i as int] && yr[0] == ys[i as int]);
            assert(xs != ys) by { assert(xs[i as int] != ys[i as int]); }
            return 1;
        }
        assert(xr.drop_first() =~= xs.subrange(i + 1, xs.len() as int));
        assert(yr.drop_first() =~= ys.subrange(i + 1, ys.len() as int));
        assert(xs.subrange(0, i + 1) =~= xs.subrange(0, i as int).push(xs[i as int]));
        assert(ys.subrange(0, i + 1) =~= ys.subrange(0, i as int).push(ys[i as int]));
        i = i + 1;
    }
    let ghost xr = xs.subrange(i as int, xs.len() as int);
    let ghost yr = ys.subrange(i as int, ys.len() as int);
    if x.len() == y.len() {
        assert(xs =~= xs.subrange(0, i as int));
        assert(ys =~= ys.subrange(0, i as int));
        0
    } else if x.len() < y.len() {
        assert(xr.len() == 0 && yr.len() > 0);
        -1
    } else {
        assert(yr.len() == 0 && xr.len() > 0);
        1
    }
}

/// Pairs of strings and byte vectors seen as pairs of views.
pub open spec fn entry_view(s: Seq<(String, Vec<u8>)>) -> Seq<(Seq<char>, Seq<u8>)> {
    s.map_values(|p: (String, Vec<u8>)| (p.0@, p.1@))
}

/// Keys strictly ascend along the sequence.
pub open spec fn keys_ascending(s: Seq<(Seq<char>, Seq<u8>)>) -> bool {
    forall|i: int, j: int| 0 <= i < j < s.len() ==> key_lt(#[trigger] s[i].0, #[trigger] s[j].0)
}

/// The bytes that the hash covers, for entries in the given order: each key's
/// UTF-8 bytes followed by its value, with no separators.
pub open spec fn entries_bytes(s: Seq<(Seq<char>, Seq<u8>)>) -> Seq<u8>
    decreases s.len(),
{
    if s.len() == 0 {
        Seq::empty()
    } else {
        entries_bytes(s.drop_last()) + encode_utf8(s.last().0) + s.last().1
    }
}

/// The entries of a map in ascending key order.
pub open spec fn ordered_entries(m: Map<Seq<char>, Seq<u8>>) -> Seq<(Seq<char>, Seq<u8>)> {
    choose|s: Seq<(Seq<char>, Seq<u8>)>| keys_ascending(s) && pairs_map(s) == m
}

/// The bytes that the hash of a payload covers: its entries in ascending key order.
pub open spec fn payload_bytes(m: Map<Seq<char>, Seq<u8>>) -> Seq<u8> {
    entries_bytes(ordered_entries(m))
}

/// Along ascending keys, each pair is the map's entry for its key, and the map
/// has no other keys.
pub proof fn lemma_ascending_map(s: Seq<(Seq<char>, Seq<u8>)>)
    requires
        keys_ascending(s),
    ensures
        forall|i: int| 0 <= i < s.len() ==> #[trigger] pairs_map(s).contains_key(s[i].0) && pairs_map(s)[s[i].0] == s[i].1,
        forall|k: Seq<char>| #[trigger] pairs_map(s).contains_key(k) ==> exists|i: int| 0 <= i < s.len() && s[i].0 == k,
{
    lemma_key_lt_order();
    assert forall|i: int, j: int| 0 <= i < j < s.len() implies #[trigger] s[i].0 != #[trigger] s[j].0 by {
        assert(key_lt(s[i].0, s[j].0));
    }
    lemma_distinct_map(s);
}

/// Two ascending sequences that denote the same map are the same sequence.
pub proof fn lemma_ascending_unique(s1: Seq<(Seq<char>, Seq<u8>)>, s2: Seq<(Seq<char>, Seq<u8>)>)
    requires
        keys_ascending(s1),
        keys_ascending(s2),
        pairs_map(s1) == pairs_map(s2),
    ensures
        s1 == s2,
    decreases s1.len(),
{
    lemma_key_lt_order();
    lemma_ascending_map(s1);
    lemma_ascending_map(s2);
    if s1.len() == 0 || s2.len() == 0 {
        if s1.len() > 0 {
            assert(pairs_map(s1).contains_key(s1[0].0));
        }
        if s2.len() > 0 {
            assert(pairs_map(s2).contains_key(s2[0].0));
        }
        assert(s1 =~= s2);
    } else {
        let n1 = s1.len() - 1;
        let n2 = s2.len() - 1;
        let k1 = s1[n1].0;
        let k2 = s2[n2].0;
        assert(pairs_map(s1).contains_key(k1));
        assert(pairs_map(s2).contains_key(k2));
        let j = choose|j: int| 0 <= j < s2.len() && s2[j].0 == k1;
        let i = choose|i: int| 0 <= i < s1.len() && s1[i].0 == k2;
        if j < n2 && i < n1 {
            assert(key_lt(s2[j].0, s2[n2].0));
            assert(key_lt(s1[i].0, s1[n1].0));
        }
        assert(k1 == k2);
        let d1 = s1.drop_last();
        let d2 = s2.drop_last();
        assert forall|a: int| 0 <= a < d1.len() implies d1[a].0 != k1 by {
            assert(key_lt(s1[a].0, s1[n1].0));
        }
        assert forall|a: int| 0 <= a < d2.len() implies d2[a].0 != k2 by {
            assert(key_lt(s2[a].0, s2[n2].0));
        }
        lemma_pairs_map_absent(d1, k1);
        lemma_pairs_map_absent(d2, k2);
        assert(pairs_map(d1) =~= pairs_map(s1).remove(k1));
        assert(pairs_map(d2) =~= pairs_map(s2).remove(k2));
        assert(keys_ascending(d1));
        assert(keys_ascending(d2));
        lemma_ascending_unique(d1, d2);
        assert(s1 =~= d1.push(s1[n1]));
        assert(s2 =~= d2.push(s2[n2]));
    }
}

/// The ordered entries of the map that ascending entries denote are those entries.
pub proof fn lemma_ordered_entries(s: Seq<(Seq<char>, Seq<u8>)>)
    requires
        keys_ascending(s),
    ensures
        ordered_entries(pairs_map(s)) == s,
{
    let o = ordered_entries(pairs_map(s));
    assert(keys_ascending(o) && pairs_map(o) == pairs_map(s));
    lemma_ascending_unique(o, s);
}

/// A mapping from string keys to byte strings, kept in ascending key order.
pub struct Payload {
    entries: Vec<(String, Vec<u8>)>,
}

impl View for Payload {
    type V = Map<Seq<char>, Seq<u8>>;

    closed spec fn view(&self) -> Map<Seq<char>, Seq<u8>> {
        pairs_map(entry_view(self.entries@))
    }
}

impl Payload {
    /// Keys strictly ascend along the entries.
    pub closed spec fn wf(&self) -> bool {
        keys_ascending(entry_view(self.entries@))
    }

    /// The empty payload.
    pub fn new() -> (p: Payload)
        ensures
            p.wf(),
            p@ == Map::<Seq<char>, Seq<u8>>::empty(),
    {
        let p = Payload { entries: Vec::new() };
        assert(entry_view(p.entries@) =~= Seq::empty());
        p
    }

    /// Whether the payload has no entry.
    pub fn is_empty(&self) -> (r: bool)
        requires
            self.wf(),
        ensures
            r == (self@.dom() == Set::<Seq<char>>::empty()),
    {
        proof {
            lemma_ascending_map(entry_view(self.entries@));
        }
        if self.entries.len() == 0 {
            assert(entry_view(self.entries@) =~= Seq::empty());
            assert(self@.dom() =~= Set::empty());
            true
        } else {
            assert(self@.contains_key(entry_view(self.entries@)[0].0));
            false
        }
    }

    /// Sets the value of `key`, replacing any earlier one.
    pub fn insert(&mut self, key: String, value: Vec<u8>)
        requires
            old(self).wf(),
        ensures
            final(self).wf(),
            final(self)@ == old(self)@.insert(key@, value@),
    {
        proof {
            lemma_key_lt_order();
        }
        let ghost s = entry_view(self.entries@);
        let mut i: usize = 0;
        while i < self.entries.len()
            invariant
                s == entry_view(self.entries@),
                keys_ascending(s),
                0 <= i <= s.len(),
                forall|j: int| 0 <= j < i ==> key_lt(#[trigger] s[j].0, key@),
            ensures
                0 <= i <= s.len(),
                forall|j: int| 0 <= j < i ==> key_lt(#[trigger] s[j].0, key@),
                i < s.len() ==> !key_lt(s[i as int].0, key@),
            decreases s.len() - i,
        {
            if compare_keys(self.entries[i].0.as_str(), key.as_str()) >= 0 {
                break;
            }
            i = i + 1;
        }
        let c: i8 = if i < self.entries.len() {
            compare_keys(self.entries[i].0.as_str(), key.as_str())
        } else {
            1
        };
        proof {
            lemma_ascending_map(s);
        }
        let ghost kv = (key@, value@);
        if i < self.entries.len() && c == 0 {
            self.entries.set(i, (key, value));
            proof {
                let t = entry_view(self.entries@);
                assert(t =~= s.update(i as int, kv));
                assert(keys_ascending(t)) by {
                    assert forall|a: int, b: int| 0 <= a < b < t.len() implies key_lt(#[trigger] t[a].0, #[trigger] t[b].0) by {
                        assert(s[a].0 == t[a].0 && s[b].0 == t[b].0);
                    }
                }
                lemma_ascending_map(t);
                assert(pairs_map(t) =~= pairs_map(s).insert(kv.0, kv.1)) by {
                    assert forall|q: Seq<char>| #[trigger] pairs_map(t).contains_key(q) implies pairs_map(s).insert(kv.0, kv.1).contains_key(q) by {
                        let a = choose|a: int| 0 <= a < t.len() && t[a].0 == q;
                        if a != i {
                            assert(pairs_map(s).contains_key(s[a].0));
                        }
                    }
                    assert forall|q: Seq<char>| #[trigger] pairs_map(s).insert(kv.0, kv.1).contains_key(q) implies pairs_map(t).contains_key(q) && pairs_map(t)[q] == pairs_map(s).insert(kv.0, kv.1)[q] by {
                        if q == kv.0 {
                            assert(pairs_map(t).contains_key(t[i as int].0));
                        } else {
                            let a = choose|a: int| 0 <= a < s.len() && s[a].0 == q;
                            assert(t[a] == s[a]);
                            assert(pairs_map(t).contains_key(t[a].0));
                        }
                    }
                }
            }
        } else {
            self.entries.insert(i, (key, value));
            proof {
                let t = entry_view(self.entries@);
                assert(t =~= s.insert(i as int, kv));
                if i < s.len() {
                    assert(key_lt(kv.0, s[i as int].0));
                }
                assert(keys_ascending(t)) by {
                    assert forall|a: int, b: int| 0 <= a < b < t.len() implies key_lt(#[trigger] t[a].0, #[trigger] t[b].0) by {
                        if b < i {
                            assert(t[a] == s[a] && t[b] == s[b]);
                        } else if b == i {
                            assert(t[a] == s[a]);
                        } else if a == i {
                            assert(t[b] == s[b - 1]);
                            if b - 1 > i {
                                assert(key_lt(s[i as int].0, s[b - 1].0));
                            }
                        } else if a < i {
                            assert(t[a] == s[a] && t[b] == s[b - 1]);
                        } else {
                            assert(t[a] == s[a - 1] && t[b] == s[b - 1]);
                        }
                    }
                }
                lemma_ascending_map(t);
                assert(pairs_map(t) =~= pairs_map(s).insert(kv.0, kv.1)) by {
                    assert forall|q: Seq<char>| #[trigger] pairs_map(t).contains_key(q) implies pairs_map(s).insert(kv.0, kv.1).contains_key(q) by {
                        let a = choose|a: int| 0 <= a < t.len() && t[a].0 == q;
                        if a < i {
                            assert(pairs_map(s).contains_key(s[a].0));
                        } else if a > i {
                            assert(t[a] == s[a - 1]);
                            assert(pairs_map(s).contains_key(s[a - 1].0));
                        }
                    }
                    assert forall|q: Seq<char>| #[trigger] pairs_map(s).insert(kv.0, kv.1).contains_key(q) implies pairs_map(t).contains_key(q) && pairs_map(t)[q] == pairs_map(s).insert(kv.0, kv.1)[q] by {
                        if q == kv.0 {
                            assert(pairs_map(t).contains_key(t[i as int].0));
                        } else {
                            let a = choose|a: int| 0 <= a < s.len() && s[a].0 == q;
                            if a < i {
                                assert(t[a] == s[a]);
                                assert(pairs_map(t).contains_key(t[a].0));
                            } else {
                                assert(t[a + 1] == s[a]);
                                assert(pairs_map(t).contains_key(t[a + 1].0));
                            }
                        }
                    }
                }
            }
        }
    }

    /// The payload that inserting each pair in turn gives; a later pair
    /// overrides an earlier one with the same key.
    pub fn from_pairs(pairs: &Vec<(String, Vec<u8>)>) -> (p: Payload)
        ensures
            p.wf(),
            p@ == pairs_map(entry_view(pairs@)),
    {
        let mut p = Payload::new();
        let mut i: usize = 0;
        while i < pairs.len()
            invariant
                0 <= i <= pairs@.len(),
                p.wf(),
                p@ == pairs_map(entry_view(pairs@.subrange(0, i as int))),
            decreases pairs@.len() - i,
        {
            p.insert(pairs[i].0.clone(), pairs[i].1.clone());
            assert(entry_view(pairs@.subrange(0, i + 1)).drop_last() =~= entry_view(pairs@.subrange(0, i as int)));
            i = i + 1;
        }
        assert(pairs@.subrange(0, pairs@.len() as int) =~= pairs@);
        p
    }

    /// The bytes that the hash covers: for each entry in ascending key order,
    /// the key's UTF-8 bytes followed by the value.
    pub fn digest_input(&self) -> (r: Vec<u8>)
        requires
            self.wf(),
        ensures
            r@ == payload_bytes(self@),
    {
        proof {
            lemma_ordered_entries(entry_view(self.entries@));
        }
        let ghost s = entry_view(self.entries@);
        let mut out: Vec<u8> = Vec::new();
        let mut i: usize = 0;
        while i < self.entries.len()
            invariant
                s == entry_view(self.entries@),
                0 <= i <= s.len(),
                out@ == entries_bytes(s.subrange(0, i as int)),
            decreases s.len() - i,
        {
            let k = self.entries[i].0.as_str().as_bytes_vec();
            let mut kb = k;
            let mut vb = self.entries[i].1.clone();
            out.append(&mut kb);
            out.append(&mut vb);
            assert(s.subrange(0, i + 1).drop_last() =~= s.subrange(0, i as int));
            i = i + 1;
        }
        assert(s.subrange(0, s.len() as int) =~= s);
        out
    }
}

} // verus!
