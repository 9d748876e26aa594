//! Seed and sprout markers on object metadata.
use sha2::Digest;
use vstd::prelude::*;

use crate::object::{ObjectMeta, distinct_keys, lemma_distinct_map, pairs_map};
use crate::payload::{Payload, payload_bytes};

verus! {

/// Annotation whose value `"true"` marks an object as a seed.
pub const ANNOTATION_KEY: &'static str = "sprouter.geeko.me/enabled";

/// Annotation that marks a sprout, with value `"<namespace>/<name>"` of its seed.
pub const SPROUT_KEY: &'static str = "sprouter.geeko.me/sprout-of";

/// Annotation holding the content hash of the seed when the sprout was written.
pub const SEED_HASH_KEY: &'static str = "sprouter.geeko.me/seed-hash";

/// An optional string seen as an optional character sequence.
pub open spec fn opt_view(o: Option<String>) -> Option<Seq<char>> {
    match o {
        Some(s) => Some(s@),
        None => None,
    }
}

/// The annotations say that the object is a seed.
pub open spec fn seed_marked(a: Map<Seq<char>, Seq<char>>) -> bool {
    a.contains_key(ANNOTATION_KEY@) && a[ANNOTATION_KEY@] == "true"@
}

/// The annotations say that the object is a sprout.
pub open spec fn sprout_marked(a: Map<Seq<char>, Seq<char>>) -> bool {
    a.contains_key(SPROUT_KEY@)
}

/// The recorded seed hash is the expected one: both present and equal, or both absent.
pub open spec fn hash_matches(a: Map<Seq<char>, Seq<char>>, hash: Option<Seq<char>>) -> bool {
    match hash {
        Some(h) => a.contains_key(SEED_HASH_KEY@) && a[SEED_HASH_KEY@] == h,
        None => !a.contains_key(SEED_HASH_KEY@),
    }
}

/// The back-reference that a sprout of the seed `namespace/name` carries.
pub open spec fn sprout_ref(namespace: Seq<char>, name: Seq<char>) -> Seq<char> {
    namespace + "/"@ + name
}

/// The annotations of a sprout made from a seed with annotations `a`: no seed
/// marker, a back-reference to the seed, and the seed hash exactly when there is one.
pub open spec fn sprout_annotations(
    a: Map<Seq<char>, Seq<char>>,
    namespace: Seq<char>,
    name: Seq<char>,
    hash: Option<Seq<char>>,
) -> Map<Seq<char>, Seq<char>> {
    let base = a.remove(ANNOTATION_KEY@).insert(SPROUT_KEY@, sprout_ref(namespace, name));
    match hash {
        Some(h) => base.insert(SEED_HASH_KEY@, h),
        None => base.remove(SEED_HASH_KEY@),
    }
}

/// The three annotation keys differ from one another.
pub proof fn lemma_keys_distinct()
    ensures
        ANNOTATION_KEY@ != SPROUT_KEY@,
        ANNOTATION_KEY@ != SEED_HASH_KEY@,
        SPROUT_KEY@ != SEED_HASH_KEY@,
{
    reveal_strlit("sprouter.geeko.me/enabled");
    reveal_strlit("sprouter.geeko.me/sprout-of");
    reveal_strlit("sprouter.geeko.me/seed-hash");
    assert(ANNOTATION_KEY@[18] != SPROUT_KEY@[18]);
    assert(ANNOTATION_KEY@[18] != SEED_HASH_KEY@[18]);
    assert(SPROUT_KEY@[19] != SEED_HASH_KEY@[19]);
}

/// A sprout's annotations mark it as a sprout of its seed, record the seed's
/// hash, and do not mark it as a seed.
pub proof fn lemma_sprout_annotations(
    a: Map<Seq<char>, Seq<char>>,
    namespace: Seq<char>,
    name: Seq<char>,
    hash: Option<Seq<char>>,
)
    ensures
        sprout_marked(sprout_annotations(a, namespace, name, hash)),
        sprout_annotations(a, namespace, name, hash)[SPROUT_KEY@] == sprout_ref(namespace, name),
        hash_matches(sprout_annotations(a, namespace, name, hash), hash),
        !seed_marked(sprout_annotations(a, namespace, name, hash)),
{
    lemma_keys_distinct();
}

/// True iff the object carries the seed marker with value `"true"`.
pub fn is_seed(meta: &ObjectMeta) -> (r: bool)
    ensures
        r == seed_marked(meta.annotation_map()),
{
    let t = "true";
    match meta.annotation(ANNOTATION_KEY) {
        Some(v) => crate::text::str_eq(v.as_str(), t),
        None => false,
    }
}

/// True iff the object carries a sprout back-reference, whatever its value.
pub fn is_sprout(meta: &ObjectMeta) -> (r: bool)
    ensures
        r == sprout_marked(meta.annotation_map()),
{
    meta.annotation(SPROUT_KEY).is_some()
}

/// True iff the recorded seed hash equals `hash`; an absent record equals an absent hash.
pub fn is_sprout_recent(meta: &ObjectMeta, hash: &Option<String>) -> (r: bool)
    ensures
        r == hash_matches(meta.annotation_map(), opt_view(*hash)),
{
    match (meta.annotation(SEED_HASH_KEY), hash) {
        (Some(v), Some(h)) => crate::text::str_eq(v.as_str(), h.as_str()),
        (None, None) => true,
        _ => false,
    }
}

/// The metadata of a sprout of the seed `r`: same name and namespace, the seed
/// marker dropped, the back-reference set, and the seed hash set to `hash`
/// (dropped when there is none).
pub fn create_sprout(r: ObjectMeta, hash: &Option<String>) -> (s: ObjectMeta)
    ensures
        s.name@ == r.name@,
        s.namespace@ == r.namespace@,
        s.annotation_map() == sprout_annotations(r.annotation_map(), r.namespace@, r.name@, opt_view(*hash)),
{
    let mut res = r;
    let mut val = res.namespace.clone();
    val.append("/");
    val.append(res.name.as_str());
    res.remove_annotation(ANNOTATION_KEY);
    res.set_annotation(SPROUT_KEY.to_string(), val);
    match hash {
        Some(h) => res.set_annotation(SEED_HASH_KEY.to_string(), h.clone()),
        None => res.remove_annotation(SEED_HASH_KEY),
    }
    res
}

/// The SHA-256 digest of a byte string.
pub uninterp spec fn sha256_of(data: Seq<u8>) -> Seq<u8>;

/// Relies on sha2's `Sha256::digest`: the 32-byte SHA-256 digest of `data`,
/// which depends on `data` alone.
#[verifier::external_body]
fn sha256(data: &Vec<u8>) -> (r: Vec<u8>)
    ensures
        r@ == sha256_of(data@),
        r@.len() == 32,
{
    sha2::Sha256::digest(data.as_slice()).to_vec()
}

/// Relies on `String::push`: appends one character.
#[verifier::external_body]
fn push_char(s: &mut String, c: char)
    ensures
        final(s)@ == old(s)@.push(c),
{
    s.push(c)
}

/// The lower-case hexadecimal digits.
pub open spec fn hex_digits() -> Seq<char> {
    seq!['0', '1', '2', '3', '4', '5', '6', '7', '8', '9', 'a', 'b', 'c', 'd', 'e', 'f']
}

/// Lower-case hexadecimal text of a byte string, two digits per byte, high first.
pub open spec fn hex_of(b: Seq<u8>) -> Seq<char>
    decreases b.len(),
{
    if b.len() == 0 {
        Seq::empty()
    } else {
        hex_of(b.drop_last()) + seq![hex_digits()[b.last() as int / 16], hex_digits()[b.last() as int % 16]]
    }
}

/// The content hash of a payload: none when it is empty, else the hexadecimal
/// SHA-256 of its keys and values in ascending key order.
pub open spec fn content_hash(m: Map<Seq<char>, Seq<u8>>) -> Option<Seq<char>> {
    if m.dom() == Set::<Seq<char>>::empty() {
        None
    } else {
        Some(hex_of(sha256_of(payload_bytes(m))))
    }
}

/// Lower-case hexadecimal text of a digest.
pub fn hex_digest(digest: &Vec<u8>) -> (r: String)
    ensures
        r@ == hex_of(digest@),
{
    let digits: [char; 16] = ['0', '1', '2', '3', '4', '5', '6', '7', '8', '9', 'a', 'b', 'c', 'd', 'e', 'f'];
    assert(digits@ =~= hex_digits());
    let mut out = String::new();
    let mut i: usize = 0;
    while i < digest.len()
        invariant
            0 <= i <= digest@.len(),
            digits@ == hex_digits(),
            out@ == hex_of(digest@.subrange(0, i as int)),
        decreases digest@.len() - i,
    {
        let b = digest[i];
        push_char(&mut out, digits[(b / 16) as usize]);
        push_char(&mut out, digits[(b % 16) as usize]);
        assert(digest@.subrange(0, i + 1).drop_last() =~= digest@.subrange(0, i as int));
        assert(out@ =~= hex_of(digest@.subrange(0, i + 1)));
        i = i + 1;
    }
    assert(digest@.subrange(0, digest@.len() as int) =~= digest@);
    out
}

/// Lower-case hexadecimal SHA-256 of the payload's keys and values, in
/// ascending key order, with no separators.
pub fn hash_seed_data(data: &Payload) -> (r: String)
    requires
        data.wf(),
    ensures
        r@ == hex_of(sha256_of(payload_bytes(data@))),
{
    let bytes = data.digest_input();
    let digest = sha256(&bytes);
    hex_digest(&digest)
}

/// The content hash of a payload: `None` when it is empty.
pub fn seed_hash(data: &Payload) -> (r: Option<String>)
    requires
        data.wf(),
    ensures
        opt_view(r) == content_hash(data@),
{
    if data.is_empty() {
        None
    } else {
        Some(hash_seed_data(data))
    }
}

/// The hash depends on the mapping alone: two lists of key/value pairs with
/// distinct keys that hold the same pairs, in any order, denote the same
/// payload and so have the same hash.
pub proof fn lemma_hash_ignores_order(s1: Seq<(Seq<char>, Seq<u8>)>, s2: Seq<(Seq<char>, Seq<u8>)>)
    requires
        distinct_keys(s1),
        distinct_keys(s2),
        forall|p: (Seq<char>, Seq<u8>)| s1.contains(p) <==> s2.contains(p),
    ensures
        pairs_map(s1) == pairs_map(s2),
        content_hash(pairs_map(s1)) == content_hash(pairs_map(s2)),
{
    lemma_distinct_map(s1);
    lemma_distinct_map(s2);
    assert forall|k: Seq<char>| #[trigger] pairs_map(s1).contains_key(k) implies pairs_map(s2).contains_key(k)
        && pairs_map(s2)[k] == pairs_map(s1)[k] by {
        let i = choose|i: int| 0 <= i < s1.len() && s1[i].0 == k;
        assert(s1.contains(s1[i]));
        let j = choose|j: int| 0 <= j < s2.len() && s2[j] == s1[i];
        assert(pairs_map(s2).contains_key(s2[j].0));
    }
    assert forall|k: Seq<char>| #[trigger] pairs_map(s2).contains_key(k) implies pairs_map(s1).contains_key(k) by {
        let j = choose|j: int| 0 <= j < s2.len() && s2[j].0 == k;
        assert(s2.contains(s2[j]));
        let i = choose|i: int| 0 <= i < s1.len() && s1[i] == s2[j];
        assert(pairs_map(s1).contains_key(s1[i].0));
    }
    assert(pairs_map(s1) =~= pairs_map(s2));
}

} // verus!
