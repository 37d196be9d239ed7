//! The classic VNC password challenge.
use des::cipher::{generic_array::GenericArray, BlockEncrypt, KeyInit};
use des::Des;
use vstd::prelude::*;

use crate::bytes;

verus! {

/// How many bytes of a password count.
pub const PASSWORD_LEN: usize = 8;

/// Why a client was turned away.
#[derive(Clone, Copy, Debug, PartialEq, Eq, Structural)]
pub enum VncError {
    /// It chose a security type that was not offered.
    UnsupportedSecurityType,
    /// It did not know the password.
    AuthenticationFailed,
}

impl VncError {
    /// The reason in words.
    pub open spec fn spec_message(self) -> Seq<char> {
        match self {
            VncError::UnsupportedSecurityType => {
                "VNC client selected an unsupported security type"@
            },
            VncError::AuthenticationFailed => "VNC password authentication failed"@,
        }
    }

    /// The reason in words.
    pub fn message(&self) -> (r: &'static str)
        ensures
            r@ == self.spec_message(),
            *self is UnsupportedSecurityType ==> r@
                == "VNC client selected an unsupported security type"@,
            *self is AuthenticationFailed ==> r@ == "VNC password authentication failed"@,
    {
        match self {
            VncError::UnsupportedSecurityType => "VNC client selected an unsupported security type",
            VncError::AuthenticationFailed => "VNC password authentication failed",
        }
    }
}

/// The block that DES makes of the 8-byte block `block` under the 8-byte key
/// `key`.
pub uninterp spec fn des_encrypted(key: Seq<u8>, block: Seq<u8>) -> Seq<u8>;

/// Calls `des::Des::new` with `key`, and `encrypt_block` of the cipher that
/// comes back with `block`. What is claimed is that the resulting block
/// depends on the key and on the block alone. Neither call fails on eight
/// bytes.
#[verifier::external_body]
fn des_encrypt(key: [u8; 8], block: [u8; 8]) -> (r: [u8; 8])
    ensures
        r@ == des_encrypted(key@, block@),
{
    let cipher = Des::new(GenericArray::from_slice(&key));
    let mut encrypted = block;
    cipher.encrypt_block(GenericArray::from_mut_slice(&mut encrypted));
    encrypted
}

/// Calls `rand::random` for sixteen bytes. Nothing is claimed of them: each
/// call may give any others.
#[verifier::external_body]
pub(crate) fn random_challenge() -> (r: [u8; 16]) {
    rand::random()
}

/// The bytes of a password.
pub open spec fn password_bytes(password: Seq<char>) -> Seq<u8> {
    vstd::utf8::encode_utf8(password)
}

/// The DES key for a password: its first eight bytes, each with its bits in
/// the opposite order, and zeros where it is shorter.
pub open spec fn key_for(password: Seq<char>) -> Seq<u8> {
    let text = password_bytes(password);
    Seq::new(
        PASSWORD_LEN as nat,
        |i: int|
            if i < text.len() {
                bytes::reversed(text[i])
            } else {
                0u8
            },
    )
}

/// What a client that knows the password answers to a challenge: both halves
/// of it, encrypted.
pub open spec fn password_response(password: Seq<char>, challenge: Seq<u8>) -> Seq<u8> {
    des_encrypted(key_for(password), challenge.subrange(0, 8)) + des_encrypted(
        key_for(password),
        challenge.subrange(8, 16),
    )
}

/// The DES key for a password.
pub fn vnc_password_key(password: &str) -> (key: [u8; 8])
    ensures
        key@ == key_for(password@),
{
    let text: &[u8] = password.as_bytes();
    let mut key: [u8; 8] = [0u8; 8];
    let mut i: usize = 0;
    while i < PASSWORD_LEN && i < text.len()
        invariant
            i <= PASSWORD_LEN,
            i <= text@.len(),
            text@ == password_bytes(password@),
            forall|k: int| 0 <= k < i ==> key@[k] == bytes::reversed(text@[k]),
            forall|k: int| i <= k < 8 ==> key@[k] == 0,
        decreases PASSWORD_LEN - i,
    {
        key[i] = bytes::reverse_bits(text[i]);
        i = i + 1;
    }
    assert(key@ =~= key_for(password@));
    key
}

/// What a client that knows the password answers to a challenge.
pub fn vnc_password_response(password: &str, challenge: [u8; 16]) -> (response: [u8; 16])
    ensures
        response@ == password_response(password@, challenge@),
{
    let key: [u8; 8] = vnc_password_key(password);
    let first: [u8; 8] = des_encrypt(key, half(&challenge, 0));
    let second: [u8; 8] = des_encrypt(key, half(&challenge, 8));
    join_halves(&first, &second)
}

/// The eight bytes from `at` on.
fn half(block: &[u8; 16], at: usize) -> (r: [u8; 8])
    requires
        at <= 8,
    ensures
        r@ == block@.subrange(at as int, at + 8),
{
    let r: [u8; 8] = [
        block[at],
        block[at + 1],
        block[at + 2],
        block[at + 3],
        block[at + 4],
        block[at + 5],
        block[at + 6],
        block[at + 7],
    ];
    assert(r@ =~= block@.subrange(at as int, at + 8));
    r
}

/// Two blocks as one response.
pub fn join_halves(first: &[u8; 8], second: &[u8; 8]) -> (r: [u8; 16])
    ensures
        r@ == first@ + second@,
{
    let mut r: [u8; 16] = [0u8; 16];
    let mut i: usize = 0;
    while i < 8
        invariant
            i <= 8,
            forall|k: int| 0 <= k < i ==> r@[k] == first@[k] && r@[k + 8] == second@[k],
        decreases 8 - i,
    {
        r[i] = first[i];
        r[i + 8] = second[i];
        i = i + 1;
    }
    assert forall|k: int| 0 <= k < 16 implies r@[k] == (first@ + second@)[k] by {
        if k >= 8 {
            assert(r@[(k - 8) + 8] == second@[k - 8]);
        }
    }
    assert(r@ =~= first@ + second@);
    r
}

/// The SecurityResult message: 0 for a client that is let in, 1 for one that
/// is not, and nothing where the message is not sent.
pub open spec fn security_result(accepted: bool, send_security_result: bool) -> Seq<u8> {
    if !send_security_result {
        Seq::empty()
    } else if accepted {
        bytes::be32_bytes(0)
    } else {
        bytes::be32_bytes(1)
    }
}

/// What becomes of a client whose answer may or may not have been right.
pub open spec fn verdict(accepted: bool) -> Result<(), VncError> {
    if accepted {
        Ok(())
    } else {
        Err(VncError::AuthenticationFailed)
    }
}

/// Whether two blocks are the same.
fn same_block(a: &[u8; 16], b: &[u8; 16]) -> (r: bool)
    ensures
        r == (a@ == b@),
{
    let mut i: usize = 0;
    while i < 16
        invariant
            i <= 16,
            forall|k: int| 0 <= k < i ==> a@[k] == b@[k],
        decreases 16 - i,
    {
        if a[i] != b[i] {
            return false;
        }
        i = i + 1;
    }
    assert(a@ =~= b@);
    true
}

/// Judges the answer to a challenge by the answer that was expected: what to
/// send to the client, and whether to let it in.
pub fn judge_response(
    expected: &[u8; 16],
    response: &[u8; 16],
    send_security_result: bool,
) -> (r: (Vec<u8>, Result<(), VncError>))
    ensures
        r.0@ == security_result(expected@ == response@, send_security_result),
        r.1 == verdict(expected@ == response@),
        !send_security_result ==> r.0@.len() == 0,
        send_security_result && expected@ == response@ ==> r.0@ == seq![0u8, 0u8, 0u8, 0u8],
        send_security_result && expected@ != response@ ==> r.0@ == seq![0u8, 0u8, 0u8, 1u8],
        expected@ == response@ ==> r.1 == Ok::<(), VncError>(()),
        expected@ != response@ ==> r.1 == Err::<(), VncError>(VncError::AuthenticationFailed),
{
    let accepted: bool = same_block(expected, response);
    let mut reply: Vec<u8> = Vec::new();
    if send_security_result {
        bytes::push_be32(
            &mut reply,
            if accepted {
                0
            } else {
                1
            },
        );
    }
    assert(reply@ =~= security_result(accepted, send_security_result));
    proof {
        law_verdict(accepted);
    }
    if accepted {
        (reply, Ok(()))
    } else {
        (reply, Err(VncError::AuthenticationFailed))
    }
}

/// Judges the answer to a challenge by the password: what to send to the
/// client, and whether to let it in.
pub fn run_vnc_password_auth(
    password: &str,
    challenge: [u8; 16],
    response: [u8; 16],
    send_security_result: bool,
) -> (r: (Vec<u8>, Result<(), VncError>))
    ensures
        r.0@ == security_result(
            password_response(password@, challenge@) == response@,
            send_security_result,
        ),
        r.1 == verdict(password_response(password@, challenge@) == response@),
{
    let expected: [u8; 16] = vnc_password_response(password, challenge);
    judge_response(&expected, &response, send_security_result)
}

/// The part of a password that counts.
pub open spec fn used_bytes(password: Seq<char>) -> Seq<u8> {
    let text = password_bytes(password);
    if text.len() > PASSWORD_LEN {
        text.take(PASSWORD_LEN as int)
    } else {
        text
    }
}

/// Only the first eight bytes of a password are used: two passwords that agree
/// on them answer every challenge alike.
pub proof fn law_password_prefix(a: Seq<char>, b: Seq<char>, challenge: Seq<u8>)
    requires
        used_bytes(a) == used_bytes(b),
    ensures
        password_response(a, challenge) == password_response(b, challenge),
{
    let ta = password_bytes(a);
    let tb = password_bytes(b);
    assert forall|i: int| 0 <= i < PASSWORD_LEN implies key_for(a)[i] == key_for(b)[i] by {
        assert(i < ta.len() <==> i < used_bytes(a).len());
        assert(i < tb.len() <==> i < used_bytes(b).len());
        if i < ta.len() {
            assert(ta[i] == used_bytes(a)[i]);
            assert(tb[i] == used_bytes(b)[i]);
        }
    }
    assert(key_for(a) =~= key_for(b));
}

/// A client that is let in is told a zero, one that is not is told a one, and
/// neither is told anything where no result is sent. Only the second has failed.
pub proof fn law_verdict(accepted: bool)
    ensures
        security_result(accepted, false).len() == 0,
        accepted ==> security_result(accepted, true) == seq![0u8, 0u8, 0u8, 0u8],
        !accepted ==> security_result(accepted, true) == seq![0u8, 0u8, 0u8, 1u8],
        verdict(accepted) is Ok <==> accepted,
        verdict(accepted) matches Err(e) ==> e == VncError::AuthenticationFailed,
{
    assert(bytes::be32_bytes(0) =~= seq![0u8, 0u8, 0u8, 0u8]);
    assert(bytes::be32_bytes(1) =~= seq![0u8, 0u8, 0u8, 1u8]);
}

/// The key for a password has eight bytes, and bit `j` of byte `i` of it is bit
/// `7 - j` of byte `i` of the password, which counts as zero past the end.
pub proof fn law_key_bits(password: Seq<char>, i: int, j: int)
    requires
        0 <= i < 8,
        0 <= j < 8,
    ensures
        ({
            let text = vstd::utf8::encode_utf8(password);
            let key = key_for(password);
            &&& key.len() == 8
            &&& (key[i] >> (j as u8)) & 1 == 1 <==> i < text.len() && (text[i] >> ((7 - j) as u8))
                & 1 == 1
        }),
{
    let text = vstd::utf8::encode_utf8(password);
    let k = j as u8;
    if i < text.len() {
        bytes::law_reversed(text[i], j);
    } else {
        assert((0u8 >> k) & 1 == 0) by (bit_vector);
    }
}

/// Two bytes with the same bits are the same.
proof fn lemma_same_bits(a: u8, b: u8)
    requires
        forall|j: int|
            0 <= j < 8 ==> (#[trigger] (a >> (j as u8)) & 1 == 1 <==> (b >> (j as u8)) & 1 == 1),
    ensures
        a == b,
{
    assert((a >> ((0int) as u8)) & 1 == 1 <==> (b >> ((0int) as u8)) & 1 == 1);
    assert((a >> ((1int) as u8)) & 1 == 1 <==> (b >> ((1int) as u8)) & 1 == 1);
    assert((a >> ((2int) as u8)) & 1 == 1 <==> (b >> ((2int) as u8)) & 1 == 1);
    assert((a >> ((3int) as u8)) & 1 == 1 <==> (b >> ((3int) as u8)) & 1 == 1);
    assert((a >> ((4int) as u8)) & 1 == 1 <==> (b >> ((4int) as u8)) & 1 == 1);
    assert((a >> ((5int) as u8)) & 1 == 1 <==> (b >> ((5int) as u8)) & 1 == 1);
    assert((a >> ((6int) as u8)) & 1 == 1 <==> (b >> ((6int) as u8)) & 1 == 1);
    assert((a >> ((7int) as u8)) & 1 == 1 <==> (b >> ((7int) as u8)) & 1 == 1);
    assert(a == b) by (bit_vector)
        requires
            (a >> 0u8) & 1 == 1 <==> (b >> 0u8) & 1 == 1,
            (a >> 1u8) & 1 == 1 <==> (b >> 1u8) & 1 == 1,
            (a >> 2u8) & 1 == 1 <==> (b >> 2u8) & 1 == 1,
            (a >> 3u8) & 1 == 1 <==> (b >> 3u8) & 1 == 1,
            (a >> 4u8) & 1 == 1 <==> (b >> 4u8) & 1 == 1,
            (a >> 5u8) & 1 == 1 <==> (b >> 5u8) & 1 == 1,
            (a >> 6u8) & 1 == 1 <==> (b >> 6u8) & 1 == 1,
            (a >> 7u8) & 1 == 1 <==> (b >> 7u8) & 1 == 1,
    ;
}

/// The answer to a challenge is its first half and then its second, each
/// encrypted under the eight bytes that are the password's with their bits in
/// the opposite order.
pub proof fn law_response(password: Seq<char>, key: Seq<u8>, first: Seq<u8>, second: Seq<u8>)
    requires
        key.len() == 8,
        first.len() == 8,
        second.len() == 8,
        forall|i: int, j: int|
            0 <= i < 8 && 0 <= j < 8 ==> (#[trigger] (key[i] >> (j as u8)) & 1 == 1 <==> {
                &&& i < vstd::utf8::encode_utf8(password).len()
                &&& (vstd::utf8::encode_utf8(password)[i] >> ((7 - j) as u8)) & 1 == 1
            }),
    ensures
        password_response(password, first + second) == des_encrypted(key, first) + des_encrypted(
            key,
            second,
        ),
{
    let own = key_for(password);
    assert forall|i: int| 0 <= i < 8 implies own[i] == key[i] by {
        assert forall|j: int| 0 <= j < 8 implies (#[trigger] (own[i] >> (j as u8)) & 1 == 1 <==> (
        key[i] >> (j as u8)) & 1 == 1) by {
            law_key_bits(password, i, j);
        }
        lemma_same_bits(own[i], key[i]);
    }
    assert(own =~= key);
    assert((first + second).subrange(0, 8) =~= first);
    assert((first + second).subrange(8, 16) =~= second);
}

} // verus!
