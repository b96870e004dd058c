//! The SCRAM-SHA-256 side of the authentication handshake: message
//! building, server-challenge parsing, and the credential proof,
//! stated over the named digest functions of `crypto`.

use vstd::prelude::*;
use crate::crypto::{
    hmac_sha256, hmac_sha256_of, pbkdf2_sha256, pbkdf2_sha256_of, sha256, sha256_of,
};
use crate::strutil::{digit_val, digits_val, is_digit, lemma_digits_val_push, str_to_chars};
use crate::dates::all_digits;
use vstd::string::StringExecFns;

verus! {

broadcast use vstd::std_specs::vec::group_vec_axioms, vstd::seq::group_seq_axioms;

/// Byte-wise exclusive or of two equal-length byte strings.
pub open spec fn xor_bytes(a: Seq<u8>, b: Seq<u8>) -> Seq<u8> {
    Seq::new(a.len(), |i: int| a[i] ^ b[i])
}

/// The ASCII bytes of `Client Key`.
pub open spec fn client_key_label() -> Seq<u8> {
    seq![67u8, 108u8, 105u8, 101u8, 110u8, 116u8, 32u8, 75u8, 101u8, 121u8]
}

/// The ASCII bytes of `Server Key`.
pub open spec fn server_key_label() -> Seq<u8> {
    seq![83u8, 101u8, 114u8, 118u8, 101u8, 114u8, 32u8, 75u8, 101u8, 121u8]
}

pub open spec fn salted_password_of(pw: Seq<u8>, salt: Seq<u8>, iters: u32) -> Seq<u8> {
    pbkdf2_sha256_of(pw, salt, iters)
}

pub open spec fn client_key_of(pw: Seq<u8>, salt: Seq<u8>, iters: u32) -> Seq<u8> {
    hmac_sha256_of(salted_password_of(pw, salt, iters), client_key_label())
}

pub open spec fn stored_key_of(pw: Seq<u8>, salt: Seq<u8>, iters: u32) -> Seq<u8> {
    sha256_of(client_key_of(pw, salt, iters))
}

pub open spec fn client_signature_of(
    pw: Seq<u8>,
    salt: Seq<u8>,
    iters: u32,
    auth_msg: Seq<u8>,
) -> Seq<u8> {
    hmac_sha256_of(stored_key_of(pw, salt, iters), auth_msg)
}

/// The SCRAM client proof: ClientKey XOR ClientSignature.
pub open spec fn client_proof_of(
    pw: Seq<u8>,
    salt: Seq<u8>,
    iters: u32,
    auth_msg: Seq<u8>,
) -> Seq<u8> {
    xor_bytes(
        client_key_of(pw, salt, iters),
        client_signature_of(pw, salt, iters, auth_msg),
    )
}

pub open spec fn server_signature_of(
    pw: Seq<u8>,
    salt: Seq<u8>,
    iters: u32,
    auth_msg: Seq<u8>,
) -> Seq<u8> {
    hmac_sha256_of(
        hmac_sha256_of(salted_password_of(pw, salt, iters), server_key_label()),
        auth_msg,
    )
}

/// Authentication determinism: the proof is a mathematical function
/// of the password, salt, iteration count and authentication message
/// alone — equal inputs give byte-for-byte equal proofs.
pub proof fn lemma_proof_deterministic(
    pw1: Seq<u8>,
    salt1: Seq<u8>,
    iters1: u32,
    am1: Seq<u8>,
    pw2: Seq<u8>,
    salt2: Seq<u8>,
    iters2: u32,
    am2: Seq<u8>,
)
    requires
        pw1 == pw2,
        salt1 == salt2,
        iters1 == iters2,
        am1 == am2,
    ensures
        client_proof_of(pw1, salt1, iters1, am1) == client_proof_of(pw2, salt2, iters2, am2),
        server_signature_of(pw1, salt1, iters1, am1) == server_signature_of(
            pw2,
            salt2,
            iters2,
            am2,
        ),
{
}

fn xor32(a: &Vec<u8>, b: &Vec<u8>) -> (r: Vec<u8>)
    requires
        a@.len() == b@.len(),
    ensures
        r@ == xor_bytes(a@, b@),
{
    let mut out: Vec<u8> = Vec::new();
    let mut i: usize = 0;
    while i < a.len()
        invariant
            0 <= i <= a@.len(),
            a@.len() == b@.len(),
            out@ =~= xor_bytes(a@, b@).take(i as int),
        decreases a@.len() - i,
    {
        out.push(a[i] ^ b[i]);
        proof {
            assert(out@ =~= xor_bytes(a@, b@).take(i + 1));
        }
        i = i + 1;
    }
    proof {
        assert(out@ =~= xor_bytes(a@, b@));
    }
    out
}

fn client_key_label_bytes() -> (r: Vec<u8>)
    ensures
        r@ == client_key_label(),
{
    let v: Vec<u8> = vec![67u8, 108u8, 105u8, 101u8, 110u8, 116u8, 32u8, 75u8, 101u8, 121u8];
    proof {
        assert(v@ =~= client_key_label());
    }
    v
}

fn server_key_label_bytes() -> (r: Vec<u8>)
    ensures
        r@ == server_key_label(),
{
    let v: Vec<u8> = vec![83u8, 101u8, 114u8, 118u8, 101u8, 114u8, 32u8, 75u8, 101u8, 121u8];
    proof {
        assert(v@ =~= server_key_label());
    }
    v
}

/// The SCRAM client proof for the given credentials and
/// authentication message.
pub fn scram_client_proof(pw: &Vec<u8>, salt: &Vec<u8>, iters: u32, auth_msg: &Vec<u8>) -> (r: Vec<
    u8,
>)
    ensures
        r@ == client_proof_of(pw@, salt@, iters, auth_msg@),
        r@.len() == 32,
{
    let salted = pbkdf2_sha256(pw, salt, iters);
    let ckl = client_key_label_bytes();
    let client_key = hmac_sha256(&salted, &ckl);
    let stored_key = sha256(&client_key);
    let client_sig = hmac_sha256(&stored_key, auth_msg);
    let r = xor32(&client_key, &client_sig);
    proof {
        assert(r@ == client_proof_of(pw@, salt@, iters, auth_msg@));
        assert(xor_bytes(client_key@, client_sig@).len() == 32);
    }
    r
}

/// The server signature the server must present on success.
pub fn scram_server_signature(pw: &Vec<u8>, salt: &Vec<u8>, iters: u32, auth_msg: &Vec<u8>) -> (r:
    Vec<u8>)
    ensures
        r@ == server_signature_of(pw@, salt@, iters, auth_msg@),
        r@.len() == 32,
{
    let salted = pbkdf2_sha256(pw, salt, iters);
    let skl = server_key_label_bytes();
    let server_key = hmac_sha256(&salted, &skl);
    hmac_sha256(&server_key, auth_msg)
}

/// `n=<user>,r=<nonce>`: the bare client-first message.
pub fn client_first_bare(username: &str, nonce: &str) -> (r: String)
    ensures
        r@ == seq!['n', '='] + username@ + seq![',', 'r', '='] + nonce@,
{
    let mut out = String::new();
    out.append("n=");
    out.append(username);
    out.append(",r=");
    out.append(nonce);
    proof {
        reveal_strlit("n=");
        reveal_strlit(",r=");
        assert(out@ =~= seq!['n', '='] + username@ + seq![',', 'r', '='] + nonce@);
    }
    out
}

/// `c=<channel>,r=<nonce>`: the client-final message without proof.
pub fn client_final_no_proof(channel_b64: &str, nonce: &str) -> (r: String)
    ensures
        r@ == seq!['c', '='] + channel_b64@ + seq![',', 'r', '='] + nonce@,
{
    let mut out = String::new();
    out.append("c=");
    out.append(channel_b64);
    out.append(",r=");
    out.append(nonce);
    proof {
        reveal_strlit("c=");
        reveal_strlit(",r=");
        assert(out@ =~= seq!['c', '='] + channel_b64@ + seq![',', 'r', '='] + nonce@);
    }
    out
}

/// The SCRAM authentication message: client-first-bare, server-first
/// and client-final-without-proof joined by commas.
pub fn auth_message(cfb: &str, server_first: &str, cfnp: &str) -> (r: String)
    ensures
        r@ == cfb@ + seq![','] + server_first@ + seq![','] + cfnp@,
{
    let mut out = String::new();
    out.append(cfb);
    out.append(",");
    out.append(server_first);
    out.append(",");
    out.append(cfnp);
    proof {
        reveal_strlit(",");
        assert(out@ =~= cfb@ + seq![','] + server_first@ + seq![','] + cfnp@);
    }
    out
}

/// Append `,p=<proof>` to the client-final message.
pub fn client_final(cfnp: &str, proof_b64: &str) -> (r: String)
    ensures
        r@ == cfnp@ + seq![',', 'p', '='] + proof_b64@,
{
    let mut out = String::new();
    out.append(cfnp);
    out.append(",p=");
    out.append(proof_b64);
    proof {
        reveal_strlit(",p=");
        assert(out@ =~= cfnp@ + seq![',', 'p', '='] + proof_b64@);
    }
    out
}

/// Parse the server-first message `r=<nonce>,s=<salt>,i=<count>`.
/// When parsing succeeds, the parts reassemble the input exactly, so
/// no wrong parse is possible; malformed challenges yield `None`.
pub fn parse_server_first(s: &str) -> (r: Option<(String, String, u32)>)
    ensures
        r matches Some(p) ==> ({
            let front = 2 + p.0@.len() + 3 + p.1@.len() + 3;
            let tail = s@.skip(front as int);
            &&& s@ == seq!['r', '='] + p.0@ + seq![',', 's', '='] + p.1@ + seq![',', 'i', '=']
                + tail
            &&& tail.len() > 0
            &&& all_digits(tail, 0, tail.len() as int)
            &&& digits_val(tail) == p.2
        }),
{
    let cs = str_to_chars(s);
    let n = cs.len();
    if n < 2 || cs[0] != 'r' || cs[1] != '=' {
        return None;
    }
    let mut c1: usize = 2;
    while c1 < n && cs[c1] != ','
        invariant
            2 <= c1 <= n,
            n == cs@.len(),
        decreases n - c1,
    {
        c1 = c1 + 1;
    }
    if n - c1 <= 3 || cs[c1 + 1] != 's' || cs[c1 + 2] != '=' {
        return None;
    }
    let mut c2: usize = c1 + 3;
    while c2 < n && cs[c2] != ','
        invariant
            c1 + 3 <= c2 <= n,
            n == cs@.len(),
        decreases n - c2,
    {
        c2 = c2 + 1;
    }
    if c2 >= n || n - c2 <= 3 || cs[c2 + 1] != 'i' || cs[c2 + 2] != '=' {
        return None;
    }
    let mut val: u64 = 0;
    let mut j: usize = c2 + 3;
    while j < n
        invariant
            c2 + 3 <= j <= n,
            n == cs@.len(),
            cs@ == s@,
            all_digits(s@, c2 + 3, j as int),
            val == digits_val(s@.subrange(c2 + 3, j as int)),
            val <= u32::MAX,
        decreases n - j,
    {
        let c = cs[j];
        if !('0' <= c && c <= '9') {
            return None;
        }
        let d = crate::strutil::char_to_digit(c);
        if val > (u32::MAX as u64 - d as u64) / 10 {
            return None;
        }
        proof {
            lemma_digits_val_push(s@.subrange(c2 + 3, j as int), c);
            assert(s@.subrange(c2 + 3, j + 1) =~= s@.subrange(c2 + 3, j as int).push(c));
            vstd::arithmetic::div_mod::lemma_fundamental_div_mod(
                (u32::MAX as u64 - d as u64) as int,
                10,
            );
            let q = (u32::MAX as u64 - d as u64) / 10;
            assert(val as int * 10 <= q * 10) by (nonlinear_arith)
                requires
                    val as int <= q,
            ;
        }
        val = val * 10 + d as u64;
        j = j + 1;
    }
    let nonce = crate::strutil::substring_string(&cs, 2, c1);
    let salt = crate::strutil::substring_string(&cs, c1 + 3, c2);
    proof {
        crate::dates::lemma_all_digits_sub(s@, c2 + 3, n as int);
        assert(s@.subrange(c2 + 3, n as int) =~= s@.skip(c2 + 3));
        assert(s@ =~= seq!['r', '='] + s@.subrange(2, c1 as int) + seq![',', 's', '=']
            + s@.subrange(c1 + 3, c2 as int) + seq![',', 'i', '='] + s@.skip(c2 + 3));
    }
    Some((nonce, salt, val as u32))
}

} // verus!
