//! The namehash of a dotted name: a chain of Keccak-256 digests over its
//! labels, top-level label first, starting from 32 zero bytes.
use vstd::prelude::*;
use vstd::utf8::encode_utf8;

verus! {

/// The Keccak-256 digest of a byte string.
pub uninterp spec fn keccak_of(b: Seq<u8>) -> Seq<u8>;

/// Relies on alloy_primitives::keccak256: the 32-byte Keccak-256 digest of
/// its input.
#[verifier::external_body]
fn keccak(b: &[u8]) -> (r: Vec<u8>)
    ensures
        r@ == keccak_of(b@),
        r@.len() == 32,
{
    alloy::primitives::keccak256(b).to_vec()
}

/// What std's lowercase mapping makes of a string.
pub uninterp spec fn lower_of(s: Seq<char>) -> Seq<char>;

/// Relies on str::to_lowercase: the Unicode lowercase mapping, which
/// depends on the characters alone and keeps an empty string empty.
#[verifier::external_body]
fn lowercase(s: &str) -> (r: String)
    ensures
        r@ == lower_of(s@),
        s@.len() == 0 ==> r@.len() == 0,
{
    s.to_lowercase()
}

/// The Unicode canonical composition (NFC) of a string.
pub uninterp spec fn nfc_of(s: Seq<char>) -> Seq<char>;

/// Relies on icu_normalizer's ComposingNormalizerBorrowed::new_nfc and
/// normalize: the NFC form of the text, which depends on the characters
/// alone and keeps an empty string empty.
#[verifier::external_body]
fn compose(s: &str) -> (r: String)
    ensures
        r@ == nfc_of(s@),
        s@.len() == 0 ==> r@.len() == 0,
{
    icu_normalizer::ComposingNormalizerBorrowed::new_nfc().normalize(s).into_owned()
}

pub const DOT: u8 = 46;

pub open spec fn zero_node() -> Seq<u8> {
    Seq::new(32, |i: int| 0u8)
}

/// The labels of a byte string cut at every `.` byte; a string with no dot
/// is one label, and empty labels are kept.
pub open spec fn split_dots(b: Seq<u8>) -> Seq<Seq<u8>>
    decreases b.len(),
{
    if b.len() == 0 {
        seq![Seq::empty()]
    } else {
        let prev = split_dots(b.drop_last());
        if b.last() == DOT {
            prev.push(Seq::empty())
        } else {
            prev.drop_last().push(prev.last().push(b.last()))
        }
    }
}

/// Namehash of a list of labels written left to right: the rightmost label
/// is hashed in first.
pub open spec fn node_of_labels(labels: Seq<Seq<u8>>) -> Seq<u8>
    decreases labels.len(),
{
    if labels.len() == 0 {
        zero_node()
    } else {
        keccak_of(node_of_labels(labels.drop_first()) + keccak_of(labels[0]))
    }
}

/// Namehash of an already normalized name given as UTF-8 bytes; the empty
/// name has no labels.
pub open spec fn node_of_bytes(b: Seq<u8>) -> Seq<u8> {
    if b.len() == 0 {
        zero_node()
    } else {
        node_of_labels(split_dots(b))
    }
}

/// Namehash of a name as typed: composed (NFC), lowercased, then hashed
/// label by label.
pub open spec fn name_node(name: Seq<char>) -> Seq<u8> {
    node_of_bytes(encode_utf8(lower_of(nfc_of(name))))
}

/// Cuts `b` into its dot-separated labels.
fn split_labels(b: &[u8]) -> (r: Vec<Vec<u8>>)
    ensures
        r@.len() == split_dots(b@).len(),
        forall|k: int| 0 <= k < r@.len() ==> #[trigger] r@[k]@ == split_dots(b@)[k],
{
    let mut labels: Vec<Vec<u8>> = Vec::new();
    let mut cur: Vec<u8> = Vec::new();
    let ghost mut gl: Seq<Seq<u8>> = Seq::empty();
    let mut i: usize = 0;
    while i < b.len()
        invariant
            0 <= i <= b@.len(),
            gl.len() == labels@.len(),
            forall|k: int| 0 <= k < gl.len() ==> #[trigger] labels@[k]@ == gl[k],
            split_dots(b@.take(i as int)) == gl.push(cur@),
        decreases b@.len() - i,
    {
        assert(b@.take(i + 1).drop_last() =~= b@.take(i as int));
        let x = b[i];
        if x == DOT {
            proof {
                gl = gl.push(cur@);
            }
            labels.push(cur);
            cur = Vec::new();
            assert(split_dots(b@.take(i + 1)) =~= gl.push(cur@));
        } else {
            cur.push(x);
            assert(split_dots(b@.take(i + 1)) =~= gl.push(cur@));
        }
        i = i + 1;
    }
    assert(b@.take(b@.len() as int) =~= b@);
    proof {
        gl = gl.push(cur@);
    }
    labels.push(cur);
    labels
}

/// Namehash of a name that is already normalized, given as its UTF-8 bytes.
pub fn namehash_bytes(b: &[u8]) -> (r: Vec<u8>)
    ensures
        r@ == node_of_bytes(b@),
        r@.len() == 32,
{
    let mut acc: Vec<u8> = vec![0u8; 32];
    assert(acc@ =~= zero_node());
    if b.len() == 0 {
        return acc;
    }
    let labels = split_labels(b);
    let ghost ls = split_dots(b@);
    let mut i: usize = labels.len();
    assert(ls.subrange(i as int, ls.len() as int) =~= Seq::<Seq<u8>>::empty());
    while i > 0
        invariant
            0 <= i <= labels@.len(),
            labels@.len() == ls.len(),
            forall|k: int| 0 <= k < labels@.len() ==> #[trigger] labels@[k]@ == ls[k],
            acc@ == node_of_labels(ls.subrange(i as int, ls.len() as int)),
            acc@.len() == 32,
        decreases i,
    {
        let ghost prev = acc@;
        let label_hash = keccak(labels[i - 1].as_slice());
        let mut input = acc.clone();
        input.extend_from_slice(label_hash.as_slice());
        assert(input@ =~= prev + keccak_of(ls[i - 1]));
        acc = keccak(input.as_slice());
        proof {
            let tail = ls.subrange(i - 1, ls.len() as int);
            assert(tail.drop_first() =~= ls.subrange(i as int, ls.len() as int));
            assert(tail[0] == ls[i - 1]);
            assert(node_of_labels(tail) == keccak_of(
                node_of_labels(tail.drop_first()) + keccak_of(tail[0]),
            ));
        }
        i = i - 1;
    }
    assert(ls.subrange(0, ls.len() as int) =~= ls);
    acc
}

/// Namehash of a name as typed: composed (NFC), lowercased, split on `.`,
/// and hashed label by label from the top-level label down. The empty name
/// hashes to 32 zero bytes.
pub fn namehash(name: &str) -> (r: Vec<u8>)
    ensures
        r@ == name_node(name@),
        r@.len() == 32,
        name@.len() == 0 ==> r@ == zero_node(),
{
    let composed = compose(name);
    let lower = lowercase(composed.as_str());
    let bytes = lower.as_str().as_bytes();
    let r = namehash_bytes(bytes);
    proof {
        if name@.len() == 0 {
            assert(composed@ =~= Seq::<char>::empty());
            assert(lower@ =~= Seq::<char>::empty());
            assert(encode_utf8(lower@) =~= Seq::<u8>::empty());
        }
    }
    r
}

/// The namehash depends on the name alone: two hashings of one name give
/// one value.
pub proof fn namehash_deterministic(name: Seq<char>, r1: Seq<u8>, r2: Seq<u8>)
    requires
        r1 == name_node(name),
        r2 == name_node(name),
    ensures
        r1 == r2,
{
}

pub open spec fn dot_free(b: Seq<u8>) -> bool {
    forall|i: int| 0 <= i < b.len() ==> b[i] != DOT
}

proof fn lemma_split_dot_free(p: Seq<u8>, b: Seq<u8>)
    requires
        dot_free(b),
    ensures
        split_dots(p + b) == split_dots(p).drop_last().push(split_dots(p).last() + b),
        split_dots(p + b).len() == split_dots(p).len(),
    decreases b.len(),
{
    lemma_split_nonempty(p);
    if b.len() == 0 {
        assert(p + b =~= p);
        assert(split_dots(p).last() + b =~= split_dots(p).last());
        assert(split_dots(p).drop_last().push(split_dots(p).last()) =~= split_dots(p));
    } else {
        let b0 = b.drop_last();
        lemma_split_dot_free(p, b0);
        assert((p + b).drop_last() =~= p + b0);
        assert((p + b).last() == b.last());
        let prev = split_dots(p + b0);
        assert(prev.last() == split_dots(p).last() + b0);
        assert(prev.last().push(b.last()) =~= split_dots(p).last() + b);
        assert(prev.drop_last() =~= split_dots(p).drop_last());
    }
}

proof fn lemma_split_nonempty(b: Seq<u8>)
    ensures
        split_dots(b).len() >= 1,
    decreases b.len(),
{
    if b.len() > 0 {
        lemma_split_nonempty(b.drop_last());
    }
}

/// Labels enter the hash chain from the right: for two dot-free labels `a`
/// and `b`, the hash of `a.b` is the hash of `a` taken over the hash of
/// `b`. So `a.b` and `b.a` are hashed from different inputs whenever the
/// labels differ in their digests.
pub proof fn two_label_node(a: Seq<u8>, b: Seq<u8>)
    requires
        dot_free(a),
        dot_free(b),
    ensures
        node_of_bytes(a + seq![DOT] + b) == keccak_of(
            keccak_of(zero_node() + keccak_of(b)) + keccak_of(a),
        ),
{
    let e = Seq::<u8>::empty();
    lemma_split_dot_free(e, a);
    assert(e + a =~= a);
    assert(split_dots(e) =~= seq![e]);
    assert(split_dots(a) =~= seq![a]);
    let p = a + seq![DOT];
    assert(p.drop_last() =~= a);
    assert(split_dots(p) =~= seq![a, e]);
    lemma_split_dot_free(p, b);
    assert(e + b =~= b);
    let ls = split_dots(a + seq![DOT] + b);
    assert(ls =~= seq![a, b]);
    assert(ls.drop_first() =~= seq![b]);
    assert(ls.drop_first().drop_first() =~= Seq::<Seq<u8>>::empty());
    assert((a + seq![DOT] + b).len() > 0);
    let tail = ls.drop_first();
    assert(node_of_labels(tail.drop_first()) == zero_node());
    assert(node_of_labels(tail) == keccak_of(zero_node() + keccak_of(b)));
    assert(node_of_labels(ls) == keccak_of(node_of_labels(tail) + keccak_of(a)));
}

} // verus!
