//! The parts of a cluster object that the controller reads and writes.
use vstd::prelude::*;
use vstd::string::StrSliceExecFns;
use vstd::utf8::encode_utf8;

use crate::payload::{Payload, entry_view};
use crate::text::str_eq;

verus! {

/// The map that a sequence of key/value pairs denotes: each pair is inserted
/// in turn, so a later pair overrides an earlier one with the same key.
pub open spec fn pairs_map<K, V>(s: Seq<(K, V)>) -> Map<K, V>
    decreases s.len(),
{
    if s.len() == 0 {
        Map::empty()
    } else {
        pairs_map(s.drop_last()).insert(s.last().0, s.last().1)
    }
}

/// Text pairs seen as pairs of character sequences.
pub open spec fn text_pairs(s: Seq<(String, String)>) -> Seq<(Seq<char>, Seq<char>)> {
    s.map_values(|p: (String, String)| (p.0@, p.1@))
}

/// A key that no pair at or after `from` carries is decided by the pairs before.
pub proof fn lemma_pairs_map_last<K, V>(s: Seq<(K, V)>, k: K, i: int)
    requires
        0 <= i < s.len(),
        s[i].0 == k,
        forall|j: int| i < j < s.len() ==> s[j].0 != k,
    ensures
        pairs_map(s).contains_key(k),
        pairs_map(s)[k] == s[i].1,
    decreases s.len(),
{
    if i < s.len() - 1 {
        lemma_pairs_map_last(s.drop_last(), k, i);
    }
}

/// A key that no pair carries is absent from the map.
pub proof fn lemma_pairs_map_absent<K, V>(s: Seq<(K, V)>, k: K)
    requires
        forall|j: int| 0 <= j < s.len() ==> s[j].0 != k,
    ensures
        !pairs_map(s).contains_key(k),
    decreases s.len(),
{
    if s.len() > 0 {
        lemma_pairs_map_absent(s.drop_last(), k);
    }
}

/// No two pairs carry the same key.
pub open spec fn distinct_keys<K, V>(s: Seq<(K, V)>) -> bool {
    forall|i: int, j: int| 0 <= i < j < s.len() ==> #[trigger] s[i].0 != #[trigger] s[j].0
}

/// With distinct keys, each pair is the map's entry for its key, and the map
/// has no other keys.
pub proof fn lemma_distinct_map<K, V>(s: Seq<(K, V)>)
    requires
        distinct_keys(s),
    ensures
        forall|i: int| 0 <= i < s.len() ==> #[trigger] pairs_map(s).contains_key(s[i].0) && pairs_map(s)[s[i].0] == s[i].1,
        forall|k: K| #[trigger] pairs_map(s).contains_key(k) ==> exists|i: int| 0 <= i < s.len() && s[i].0 == k,
{
    assert forall|i: int| 0 <= i < s.len() implies #[trigger] pairs_map(s).contains_key(s[i].0) && pairs_map(s)[s[i].0] == s[i].1 by {
        assert forall|j: int| i < j < s.len() implies s[j].0 != s[i].0 by {
            assert(s[i].0 != s[j].0);
        }
        lemma_pairs_map_last(s, s[i].0, i);
    }
    assert forall|k: K| #[trigger] pairs_map(s).contains_key(k) implies exists|i: int| 0 <= i < s.len() && s[i].0 == k by {
        if forall|i: int| 0 <= i < s.len() ==> s[i].0 != k {
            lemma_pairs_map_absent(s, k);
        }
    }
}

/// Identity and annotations of a namespaced object.
#[derive(Clone, Debug)]
pub struct ObjectMeta {
    pub name: String,
    pub namespace: String,
    /// Annotation pairs; where a key occurs twice the later pair counts.
    pub annotations: Vec<(String, String)>,
}

impl ObjectMeta {
    /// The annotations as a map from key to value.
    pub open spec fn annotation_map(&self) -> Map<Seq<char>, Seq<char>> {
        pairs_map(text_pairs(self.annotations@))
    }

    /// Metadata with empty name, namespace and annotations.
    pub fn new() -> (m: ObjectMeta)
        ensures
            m.name@ == Seq::<char>::empty(),
            m.namespace@ == Seq::<char>::empty(),
            m.annotations@ == Seq::<(String, String)>::empty(),
    {
        ObjectMeta { name: String::new(), namespace: String::new(), annotations: Vec::new() }
    }

    /// A copy with the same name, namespace and annotations.
    pub fn clone_meta(&self) -> (m: ObjectMeta)
        ensures
            m.name@ == self.name@,
            m.namespace@ == self.namespace@,
            m.annotation_map() == self.annotation_map(),
    {
        let mut anns: Vec<(String, String)> = Vec::new();
        let mut i: usize = 0;
        while i < self.annotations.len()
            invariant
                0 <= i <= self.annotations@.len(),
                anns@.len() == i,
                forall|j: int| 0 <= j < i ==> #[trigger] anns@[j].0@ == self.annotations@[j].0@
                    && anns@[j].1@ == self.annotations@[j].1@,
            decreases self.annotations@.len() - i,
        {
            anns.push((self.annotations[i].0.clone(), self.annotations[i].1.clone()));
            i = i + 1;
        }
        assert(text_pairs(anns@) =~= text_pairs(self.annotations@));
        ObjectMeta { name: self.name.clone(), namespace: self.namespace.clone(), annotations: anns }
    }

    /// The value of the annotation `key`, if the object carries it.
    pub fn annotation(&self, key: &str) -> (r: Option<&String>)
        ensures
            r.is_some() == self.annotation_map().contains_key(key@),
            r matches Some(v) ==> v@ == self.annotation_map()[key@],
    {
        let ghost s = text_pairs(self.annotations@);
        let mut i: usize = self.annotations.len();
        while i > 0
            invariant
                i <= self.annotations@.len(),
                s == text_pairs(self.annotations@),
                forall|j: int| i <= j < s.len() ==> s[j].0 != key@,
            decreases i,
        {
            if str_eq(self.annotations[i - 1].0.as_str(), key) {
                proof {
                    lemma_pairs_map_last(s, key@, i - 1);
                }
                return Some(&self.annotations[i - 1].1);
            }
            i = i - 1;
        }
        proof {
            lemma_pairs_map_absent(s, key@);
        }
        None
    }

    /// Drops every pair with key `key`.
    pub fn remove_annotation(&mut self, key: &str)
        ensures
            final(self).name == old(self).name,
            final(self).namespace == old(self).namespace,
            final(self).annotation_map() == old(self).annotation_map().remove(key@),
    {
        let mut kept: Vec<(String, String)> = Vec::new();
        let mut i: usize = 0;
        while i < self.annotations.len()
            invariant
                0 <= i <= self.annotations@.len(),
                pairs_map(text_pairs(kept@)) == pairs_map(text_pairs(self.annotations@.subrange(0, i as int))).remove(key@),
            decreases self.annotations@.len() - i,
        {
            let ghost pre = text_pairs(self.annotations@.subrange(0, i as int));
            let ghost post = text_pairs(self.annotations@.subrange(0, i + 1));
            proof {
                assert(post.drop_last() =~= pre);
            }
            if !str_eq(self.annotations[i].0.as_str(), key) {
                let p = (self.annotations[i].0.clone(), self.annotations[i].1.clone());
                let ghost kept0 = kept@;
                kept.push(p);
                proof {
                    assert(text_pairs(kept@).drop_last() =~= text_pairs(kept0));
                    assert(pairs_map(text_pairs(kept@)) =~= pairs_map(post).remove(key@));
                }
            } else {
                proof {
                    assert(pairs_map(post).remove(key@) =~= pairs_map(pre).remove(key@));
                }
            }
            i = i + 1;
        }
        proof {
            assert(self.annotations@.subrange(0, self.annotations@.len() as int) =~= self.annotations@);
        }
        self.annotations = kept;
    }

    /// Sets the annotation `key` to `value`, replacing any earlier value.
    pub fn set_annotation(&mut self, key: String, value: String)
        ensures
            final(self).name == old(self).name,
            final(self).namespace == old(self).namespace,
            final(self).annotation_map() == old(self).annotation_map().insert(key@, value@),
    {
        self.remove_annotation(key.as_str());
        let ghost before = self.annotations@;
        self.annotations.push((key, value));
        proof {
            assert(text_pairs(self.annotations@).drop_last() =~= text_pairs(before));
            assert(old(self).annotation_map().remove(key@).insert(key@, value@) =~= old(self).annotation_map().insert(key@, value@));
        }
    }
}

impl Default for ObjectMeta {
    fn default() -> (m: ObjectMeta)
        ensures
            m.name@ == Seq::<char>::empty(),
            m.namespace@ == Seq::<char>::empty(),
            m.annotations@ == Seq::<(String, String)>::empty(),
    {
        ObjectMeta::new()
    }
}

/// Text entries seen as keys with the UTF-8 bytes of their values.
pub open spec fn text_entries(s: Seq<(String, String)>) -> Seq<(Seq<char>, Seq<u8>)> {
    s.map_values(|p: (String, String)| (p.0@, encode_utf8(p.1@)))
}

/// A ConfigMap: metadata, text data and binary data.
#[derive(Clone, Debug)]
pub struct ConfigMap {
    pub metadata: ObjectMeta,
    pub data: Vec<(String, String)>,
    pub binary_data: Vec<(String, Vec<u8>)>,
}

/// A Secret: metadata and its data, already decoded from base64.
#[derive(Clone, Debug)]
pub struct Secret {
    pub metadata: ObjectMeta,
    pub data: Vec<(String, Vec<u8>)>,
}

impl ConfigMap {
    /// The hashed payload: the text data as UTF-8 bytes, overridden by the
    /// binary data where a key occurs in both.
    pub open spec fn payload_view(&self) -> Map<Seq<char>, Seq<u8>> {
        pairs_map(text_entries(self.data@)).union_prefer_right(pairs_map(entry_view(self.binary_data@)))
    }

    pub fn meta(&self) -> (r: &ObjectMeta)
        ensures
            r == &self.metadata,
    {
        &self.metadata
    }

    /// The payload that the content hash covers.
    pub fn payload(&self) -> (p: Payload)
        ensures
            p.wf(),
            p@ == self.payload_view(),
    {
        let mut p = Payload::new();
        let mut i: usize = 0;
        while i < self.data.len()
            invariant
                0 <= i <= self.data@.len(),
                p.wf(),
                p@ == pairs_map(text_entries(self.data@.subrange(0, i as int))),
            decreases self.data@.len() - i,
        {
            let k = self.data[i].0.clone();
            let v = self.data[i].1.as_str().as_bytes_vec();
            p.insert(k, v);
            assert(text_entries(self.data@.subrange(0, i + 1)).drop_last() =~= text_entries(self.data@.subrange(0, i as int)));
            i = i + 1;
        }
        assert(self.data@.subrange(0, self.data@.len() as int) =~= self.data@);
        let ghost text = p@;
        let mut j: usize = 0;
        assert(pairs_map(entry_view(self.binary_data@.subrange(0, 0))) =~= Map::empty());
        assert(text.union_prefer_right(Map::empty()) =~= text);
        while j < self.binary_data.len()
            invariant
                0 <= j <= self.binary_data@.len(),
                p.wf(),
                p@ == text.union_prefer_right(pairs_map(entry_view(self.binary_data@.subrange(0, j as int)))),
            decreases self.binary_data@.len() - j,
        {
            let ghost before = pairs_map(entry_view(self.binary_data@.subrange(0, j as int)));
            p.insert(self.binary_data[j].0.clone(), self.binary_data[j].1.clone());
            assert(entry_view(self.binary_data@.subrange(0, j + 1)).drop_last() =~= entry_view(self.binary_data@.subrange(0, j as int)));
            assert(p@ =~= text.union_prefer_right(pairs_map(entry_view(self.binary_data@.subrange(0, j + 1)))));
            j = j + 1;
        }
        assert(self.binary_data@.subrange(0, self.binary_data@.len() as int) =~= self.binary_data@);
        p
    }
}

impl Default for ConfigMap {
    fn default() -> (c: ConfigMap)
        ensures
            c.metadata.name@ == Seq::<char>::empty(),
            c.metadata.namespace@ == Seq::<char>::empty(),
            c.metadata.annotations@ == Seq::<(String, String)>::empty(),
            c.data@ == Seq::<(String, String)>::empty(),
            c.binary_data@ == Seq::<(String, Vec<u8>)>::empty(),
    {
        ConfigMap { metadata: ObjectMeta::new(), data: Vec::new(), binary_data: Vec::new() }
    }
}

impl Secret {
    /// The hashed payload: the decoded data.
    pub open spec fn payload_view(&self) -> Map<Seq<char>, Seq<u8>> {
        pairs_map(entry_view(self.data@))
    }

    pub fn meta(&self) -> (r: &ObjectMeta)
        ensures
            r == &self.metadata,
    {
        &self.metadata
    }

    /// The payload that the content hash covers.
    pub fn payload(&self) -> (p: Payload)
        ensures
            p.wf(),
            p@ == self.payload_view(),
    {
        Payload::from_pairs(&self.data)
    }
}

impl Default for Secret {
    fn default() -> (s: Secret)
        ensures
            s.metadata.name@ == Seq::<char>::empty(),
            s.metadata.namespace@ == Seq::<char>::empty(),
            s.metadata.annotations@ == Seq::<(String, String)>::empty(),
            s.data@ == Seq::<(String, Vec<u8>)>::empty(),
    {
        Secret { metadata: ObjectMeta::new(), data: Vec::new() }
    }
}

} // verus!
