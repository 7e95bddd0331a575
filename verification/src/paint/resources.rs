//! Content-addressed keys of paint resources (images, SVG fragments).

use vstd::prelude::*;
use crate::text::{utf8_of, all_ascii, bytes_of, string_of_valid, lemma_utf8_of_valid, lemma_ascii_valid,
    lemma_concat_valid};
use crate::decimal::{decimal, decimal_u64, lemma_decimal_props};
use crate::scan::push_all;

verus! {

/// The hash algorithm named in resource keys.
pub const RESOURCE_KEY_ALGORITHM: &'static str = "blake3";

/// A place for images, paths and shapes shared between layers (it holds
/// nothing yet; leaves keep their payload).
#[derive(Debug, Clone, Default)]
pub struct ResourceArena;

/// The lowercase hexadecimal BLAKE3 digest of `input`.
pub uninterp spec fn blake3_hex(input: Seq<u8>) -> Seq<char>;

/// `blake3::hash(bytes).to_hex()`: the 32-byte BLAKE3 hash of the bytes as
/// 64 lowercase hexadecimal digits. Which digits they are is the BLAKE3
/// function of the input bytes, left to the blake3 crate.
#[verifier::external_body]
pub fn resource_digest_hex(bytes: &[u8]) -> (r: String)
    ensures
        r@ == blake3_hex(bytes@),
        r@.len() == 64,
        forall|i: int| 0 <= i < 64 ==> ('0' <= #[trigger] r@[i] <= '9' || 'a' <= r@[i] <= 'f'),
{
    blake3::hash(bytes).to_hex().to_string()
}

/// `blake3`.
pub open spec fn algorithm_name() -> Seq<u8> {
    seq![98u8, 108, 97, 107, 101, 51]
}

/// `kind:blake3:byte_len:digest`.
pub open spec fn resource_key_text(kind: Seq<u8>, byte_len: nat, digest: Seq<u8>) -> Seq<u8> {
    kind + seq![58u8] + algorithm_name() + seq![58u8] + decimal(byte_len) + seq![58u8] + digest
}

fn resource_key(kind: &[u8], byte_len: usize, digest: &str) -> (r: String)
    requires
        all_ascii(kind@),
    ensures
        utf8_of(r@) == resource_key_text(kind@, byte_len as nat, utf8_of(digest@)),
{
    let mut v: Vec<u8> = Vec::new();
    push_all(&mut v, kind);
    v.push(58u8);
    let alg: Vec<u8> = vec![98u8, 108, 97, 107, 101, 51];
    assert(alg@ =~= algorithm_name());
    push_all(&mut v, alg.as_slice());
    v.push(58u8);
    let d = decimal_u64(byte_len as u64);
    push_all(&mut v, d.as_slice());
    v.push(58u8);
    let ghost head = v@;
    push_all(&mut v, bytes_of(digest));
    proof {
        assert(head =~= kind@ + seq![58u8] + algorithm_name() + seq![58u8] + decimal(byte_len as nat) + seq![58u8]);
        lemma_decimal_props(byte_len as nat);
        assert(all_ascii(head)) by {
            assert forall|k: int| 0 <= k < head.len() implies #[trigger] head[k] < 0x80 by {
                let a = kind@.len() as int;
                let b = a + 1 + 6 + 1;
                let c = b + decimal(byte_len as nat).len();
                if k < a {
                    assert(head[k] == kind@[k]);
                } else if k < b {
                } else if k < c {
                    assert(head[k] == decimal(byte_len as nat)[k - b]);
                } else {
                }
            }
        }
        lemma_ascii_valid(head);
        lemma_utf8_of_valid(digest@);
        lemma_concat_valid(head, utf8_of(digest@));
        assert(v@ =~= resource_key_text(kind@, byte_len as nat, utf8_of(digest@)));
    }
    string_of_valid(v)
}

/// `img`.
pub open spec fn image_kind() -> Seq<u8> {
    seq![105u8, 109, 103]
}

/// `svg`.
pub open spec fn svg_kind() -> Seq<u8> {
    seq![115u8, 118, 103]
}

/// The key of an image resource: `img:blake3:<byte_len>:<digest>`.
pub fn image_resource_key(byte_len: usize, digest: &str) -> (r: String)
    ensures
        utf8_of(r@) == resource_key_text(image_kind(), byte_len as nat, utf8_of(digest@)),
{
    let k: Vec<u8> = vec![105u8, 109, 103];
    assert(k@ =~= image_kind());
    resource_key(k.as_slice(), byte_len, digest)
}

/// The key of an SVG resource: `svg:blake3:<byte_len>:<digest>`.
pub fn svg_resource_key(byte_len: usize, digest: &str) -> (r: String)
    ensures
        utf8_of(r@) == resource_key_text(svg_kind(), byte_len as nat, utf8_of(digest@)),
{
    let k: Vec<u8> = vec![115u8, 118, 103];
    assert(k@ =~= svg_kind());
    resource_key(k.as_slice(), byte_len, digest)
}

} // verus!
