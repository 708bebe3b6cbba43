use vstd::prelude::*;

use crate::text::{append, starts_with, starts_with_spec, sub_vec, trim, trim_spec, views_of};
use crypto::digest::Digest;

verus! {

/// Why an upgrade handshake fails: the header block carried no nonce, or the
/// connection itself failed while reading or writing.
pub enum HandshakeError {
    MissingNonce,
    IoError,
}

/// The fixed magic GUID appended to the client nonce before hashing.
pub open spec fn guid_bytes() -> Seq<u8> {
    seq![50u8, 53, 56, 69, 65, 70, 65, 53, 45, 69, 57, 49, 52, 45, 52, 55, 68, 65, 45, 57, 53, 67, 65, 45, 67, 53, 65, 66, 48, 68, 67, 56, 53, 66, 49, 49]
}

/// Builds the bytes of `guid_bytes`.
pub fn guid_vec() -> (r: Vec<u8>)
    ensures
        r@ == guid_bytes(),
{
    let mut r: Vec<u8> = Vec::new();
    r.push(50);
    r.push(53);
    r.push(56);
    r.push(69);
    r.push(65);
    r.push(70);
    r.push(65);
    r.push(53);
    r.push(45);
    r.push(69);
    r.push(57);
    r.push(49);
    r.push(52);
    r.push(45);
    r.push(52);
    r.push(55);
    r.push(68);
    r.push(65);
    r.push(45);
    r.push(57);
    r.push(53);
    r.push(67);
    r.push(65);
    r.push(45);
    r.push(67);
    r.push(53);
    r.push(65);
    r.push(66);
    r.push(48);
    r.push(68);
    r.push(67);
    r.push(56);
    r.push(53);
    r.push(66);
    r.push(49);
    r.push(49);
    proof {
        assert(r@ =~= guid_bytes());
    }
    r
}

/// The header field name that carries the client nonce, colon included.
pub open spec fn key_header_bytes() -> Seq<u8> {
    seq![83u8, 101, 99, 45, 87, 101, 98, 83, 111, 99, 107, 101, 116, 45, 75, 101, 121, 58]
}

/// Builds the bytes of `key_header_bytes`.
pub fn key_header_vec() -> (r: Vec<u8>)
    ensures
        r@ == key_header_bytes(),
{
    let mut r: Vec<u8> = Vec::new();
    r.push(83);
    r.push(101);
    r.push(99);
    r.push(45);
    r.push(87);
    r.push(101);
    r.push(98);
    r.push(83);
    r.push(111);
    r.push(99);
    r.push(107);
    r.push(101);
    r.push(116);
    r.push(45);
    r.push(75);
    r.push(101);
    r.push(121);
    r.push(58);
    proof {
        assert(r@ =~= key_header_bytes());
    }
    r
}

/// The upgrade response up to and including the accept-token field name.
pub open spec fn response_head_bytes() -> Seq<u8> {
    seq![72u8, 84, 84, 80, 47, 49, 46, 49, 32, 49, 48, 49, 32, 83, 119, 105, 116, 99, 104, 105, 110, 103, 32, 80, 114, 111, 116, 111, 99, 111, 108, 115, 13, 10, 85, 112, 103, 114, 97, 100, 101, 58, 32, 119, 101, 98, 115, 111, 99, 107, 101, 116, 13, 10, 67, 111, 110, 110, 101, 99, 116, 105, 111, 110, 58, 32, 85, 112, 103, 114, 97, 100, 101, 13, 10, 83, 101, 99, 45, 87, 101, 98, 83, 111, 99, 107, 101, 116, 45, 65, 99, 99, 101, 112, 116, 58, 32]
}

/// Builds the bytes of `response_head_bytes`.
pub fn response_head_vec() -> (r: Vec<u8>)
    ensures
        r@ == response_head_bytes(),
{
    let mut r: Vec<u8> = Vec::new();
    r.push(72);
    r.push(84);
    r.push(84);
    r.push(80);
    r.push(47);
    r.push(49);
    r.push(46);
    r.push(49);
    r.push(32);
    r.push(49);
    r.push(48);
    r.push(49);
    r.push(32);
    r.push(83);
    r.push(119);
    r.push(105);
    r.push(116);
    r.push(99);
    r.push(104);
    r.push(105);
    r.push(110);
    r.push(103);
    r.push(32);
    r.push(80);
    r.push(114);
    r.push(111);
    r.push(116);
    r.push(111);
    r.push(99);
    r.push(111);
    r.push(108);
    r.push(115);
    r.push(13);
    r.push(10);
    r.push(85);
    r.push(112);
    r.push(103);
    r.push(114);
    r.push(97);
    r.push(100);
    r.push(101);
    r.push(58);
    r.push(32);
    r.push(119);
    r.push(101);
    r.push(98);
    r.push(115);
    r.push(111);
    r.push(99);
    r.push(107);
    r.push(101);
    r.push(116);
    r.push(13);
    r.push(10);
    r.push(67);
    r.push(111);
    r.push(110);
    r.push(110);
    r.push(101);
    r.push(99);
    r.push(116);
    r.push(105);
    r.push(111);
    r.push(110);
    r.push(58);
    r.push(32);
    r.push(85);
    r.push(112);
    r.push(103);
    r.push(114);
    r.push(97);
    r.push(100);
    r.push(101);
    r.push(13);
    r.push(10);
    r.push(83);
    r.push(101);
    r.push(99);
    r.push(45);
    r.push(87);
    r.push(101);
    r.push(98);
    r.push(83);
    r.push(111);
    r.push(99);
    r.push(107);
    r.push(101);
    r.push(116);
    r.push(45);
    r.push(65);
    r.push(99);
    r.push(99);
    r.push(101);
    r.push(112);
    r.push(116);
    r.push(58);
    r.push(32);
    proof {
        assert(r@ =~= response_head_bytes());
    }
    r
}

/// The CRLF that ends the accept-token line, and the blank line that ends the response.
pub open spec fn response_tail_bytes() -> Seq<u8> {
    seq![13u8, 10, 13, 10]
}

/// Builds the bytes of `response_tail_bytes`.
pub fn response_tail_vec() -> (r: Vec<u8>)
    ensures
        r@ == response_tail_bytes(),
{
    let mut r: Vec<u8> = Vec::new();
    r.push(13);
    r.push(10);
    r.push(13);
    r.push(10);
    proof {
        assert(r@ =~= response_tail_bytes());
    }
    r
}
/// The SHA-1 digest of a byte string, as the outside hasher computes it.
pub uninterp spec fn sha1_of(data: Seq<u8>) -> Seq<u8>;

/// The standard base64 encoding (with padding) of a byte string.
pub uninterp spec fn base64_of(data: Seq<u8>) -> Seq<u8>;

/// Relies on crypto's `Sha1` (`input` then `result`): the 20-byte SHA-1
/// digest, a function of `data` alone.
#[verifier::external_body]
fn sha1_digest(data: &Vec<u8>) -> (r: Vec<u8>)
    ensures
        r@ == sha1_of(data@),
        r@.len() == 20,
{
    let mut h = crypto::sha1::Sha1::new();
    h.input(data.as_slice());
    let mut out = [0u8; 20];
    h.result(&mut out);
    out.to_vec()
}

/// Relies on `base64::encode`: the standard-alphabet, padded encoding, a
/// function of `data` alone; four output bytes per three input bytes, the
/// last group padded with `=`.
#[verifier::external_body]
fn base64_encode(data: &Vec<u8>) -> (r: Vec<u8>)
    ensures
        r@ == base64_of(data@),
        r@.len() as int == 4 * ((data@.len() as int + 2) / 3),
        data@.len() % 3 != 0 ==> r@.len() > 0 && r@[r@.len() - 1] == 61,
{
    base64::encode(data).into_bytes()
}

/// The accept token owed for a nonce: base64 of the SHA-1 digest of the nonce
/// followed by the magic GUID.
pub open spec fn accept_token_spec(nonce: Seq<u8>) -> Seq<u8> {
    base64_of(sha1_of(nonce + guid_bytes()))
}

/// Derives the accept token for `nonce`: 28 bytes, base64's padded encoding
/// of the 20-byte digest, so it ends in `=`.
pub fn calculate_accept_key(nonce: &Vec<u8>) -> (r: Vec<u8>)
    ensures
        r@ == accept_token_spec(nonce@),
        r@.len() == 28,
        r@[27] == 61,
{
    let mut combined: Vec<u8> = Vec::new();
    append(&mut combined, nonce);
    let g = guid_vec();
    append(&mut combined, &g);
    let digest = sha1_digest(&combined);
    base64_encode(&digest)
}

/// The full upgrade response for a given accept token.
pub open spec fn handshake_response_spec(token: Seq<u8>) -> Seq<u8> {
    response_head_bytes() + token + response_tail_bytes()
}

/// Builds the upgrade response around `token`.
pub fn build_response(token: &Vec<u8>) -> (r: Vec<u8>)
    ensures
        r@ == handshake_response_spec(token@),
{
    let mut r = response_head_vec();
    append(&mut r, token);
    let tail = response_tail_vec();
    append(&mut r, &tail);
    r
}

/// Whether a header line names the nonce field.
pub open spec fn line_has_key(line: Seq<u8>) -> bool {
    starts_with_spec(line, key_header_bytes())
}

/// The nonce a header line carries: the trimmed remainder after the field name.
pub open spec fn nonce_of_line(line: Seq<u8>) -> Seq<u8> {
    trim_spec(line.subrange(key_header_bytes().len() as int, line.len() as int))
}

/// The nonce of the first header line that names the nonce field, if any.
pub open spec fn find_nonce_spec(lines: Seq<Seq<u8>>) -> Option<Seq<u8>>
    decreases lines.len(),
{
    if lines.len() == 0 {
        None
    } else if line_has_key(lines[0]) {
        Some(nonce_of_line(lines[0]))
    } else {
        find_nonce_spec(lines.subrange(1, lines.len() as int))
    }
}

proof fn lemma_find_nonce_none(ls: Seq<Seq<u8>>)
    requires
        forall|k: int| 0 <= k < ls.len() ==> !line_has_key(ls[k]),
    ensures
        find_nonce_spec(ls) is None,
    decreases ls.len(),
{
    if ls.len() > 0 {
        lemma_find_nonce_none(ls.subrange(1, ls.len() as int));
    }
}

proof fn lemma_find_nonce_at(ls: Seq<Seq<u8>>, i: int)
    requires
        0 <= i < ls.len(),
        forall|k: int| 0 <= k < i ==> !line_has_key(ls[k]),
        line_has_key(ls[i]),
    ensures
        find_nonce_spec(ls) == Some(nonce_of_line(ls[i])),
    decreases i,
{
    if i > 0 {
        lemma_find_nonce_at(ls.subrange(1, ls.len() as int), i - 1);
    }
}

/// Finds the nonce in a header block, as `find_nonce_spec` states it.
pub fn find_nonce(lines: &Vec<Vec<u8>>) -> (r: Option<Vec<u8>>)
    ensures
        match r {
            Some(v) => find_nonce_spec(views_of(lines@)) == Some(v@),
            None => find_nonce_spec(views_of(lines@)) is None,
        },
{
    let header = key_header_vec();
    let mut i: usize = 0;
    while i < lines.len()
        invariant
            i <= lines@.len(),
            header@ == key_header_bytes(),
            forall|k: int| 0 <= k < i ==> !line_has_key(#[trigger] views_of(lines@)[k]),
        decreases lines@.len() - i,
    {
        let line = &lines[i];
        if starts_with(line, &header) {
            let rest = sub_vec(line, header.len(), line.len());
            let value = trim(&rest);
            proof {
                lemma_find_nonce_at(views_of(lines@), i as int);
            }
            return Some(value);
        }
        i = i + 1;
    }
    proof {
        lemma_find_nonce_none(views_of(lines@));
    }
    None
}

/// The upgrade reply owed for a header block: the response around the accept
/// token of the block's nonce, or `MissingNonce` exactly when no header line
/// names the nonce field.
pub fn handshake_reply(lines: &Vec<Vec<u8>>) -> (r: Result<Vec<u8>, HandshakeError>)
    ensures
        r is Ok <==> find_nonce_spec(views_of(lines@)) is Some,
        r matches Ok(resp) ==> (find_nonce_spec(views_of(lines@)) matches Some(n)
            && resp@ == handshake_response_spec(accept_token_spec(n))),
        r matches Err(e) ==> e == HandshakeError::MissingNonce,
{
    match find_nonce(lines) {
        Some(nonce) => {
            let token = calculate_accept_key(&nonce);
            Ok(build_response(&token))
        },
        None => Err(HandshakeError::MissingNonce),
    }
}

} // verus!
