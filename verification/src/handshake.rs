//! The one-shot handshake: the fixed ASCII greeting each side sends, a
//! UTF-8 well-formedness check for the peer's reply, and the classification
//! of a reply as accepted or as one of the handshake errors.

use vstd::prelude::*;
use crate::SyncError;

verus! {

/// The greeting the client writes immediately after connecting, as its
/// exact ASCII bytes: "hello, synctracker!".
pub open spec fn client_greet_bytes() -> Seq<u8> {
    seq![
        104u8, 101u8, 108u8, 108u8, 111u8, 44u8, 32u8, 115u8, 121u8, 110u8, 99u8, 116u8, 114u8,
        97u8, 99u8, 107u8, 101u8, 114u8, 33u8,
    ]
}

/// The reply the server must send back, as its exact ASCII bytes:
/// "hello, demo!".
pub open spec fn server_greet_bytes() -> Seq<u8> {
    seq![104u8, 101u8, 108u8, 108u8, 111u8, 44u8, 32u8, 100u8, 101u8, 109u8, 111u8, 33u8]
}

/// A UTF-8 continuation byte.
pub open spec fn is_cont(b: u8) -> bool {
    0x80 <= b <= 0xBF
}

/// Whether a byte sequence is well-formed UTF-8: a sequence of one- to
/// four-byte scalar-value encodings, shortest form only and no surrogates.
pub open spec fn is_utf8(s: Seq<u8>) -> bool
    decreases s.len(),
{
    if s.len() == 0 {
        true
    } else {
        let b0 = s[0];
        if b0 < 0x80 {
            is_utf8(s.skip(1))
        } else if 0xC2 <= b0 && b0 <= 0xDF {
            s.len() >= 2 && is_cont(s[1]) && is_utf8(s.skip(2))
        } else if b0 == 0xE0 {
            s.len() >= 3 && 0xA0 <= s[1] && s[1] <= 0xBF && is_cont(s[2]) && is_utf8(s.skip(3))
        } else if 0xE1 <= b0 && b0 <= 0xEC {
            s.len() >= 3 && is_cont(s[1]) && is_cont(s[2]) && is_utf8(s.skip(3))
        } else if b0 == 0xED {
            s.len() >= 3 && 0x80 <= s[1] && s[1] <= 0x9F && is_cont(s[2]) && is_utf8(s.skip(3))
        } else if 0xEE <= b0 && b0 <= 0xEF {
            s.len() >= 3 && is_cont(s[1]) && is_cont(s[2]) && is_utf8(s.skip(3))
        } else if b0 == 0xF0 {
            s.len() >= 4 && 0x90 <= s[1] && s[1] <= 0xBF && is_cont(s[2]) && is_cont(s[3])
                && is_utf8(s.skip(4))
        } else if 0xF1 <= b0 && b0 <= 0xF3 {
            s.len() >= 4 && is_cont(s[1]) && is_cont(s[2]) && is_cont(s[3]) && is_utf8(s.skip(4))
        } else if b0 == 0xF4 {
            s.len() >= 4 && 0x80 <= s[1] && s[1] <= 0x8F && is_cont(s[2]) && is_cont(s[3])
                && is_utf8(s.skip(4))
        } else {
            false
        }
    }
}

/// A sequence of plain ASCII bytes is well-formed UTF-8.
pub proof fn lemma_ascii_is_utf8(s: Seq<u8>)
    requires
        forall|i: int| 0 <= i < s.len() ==> s[i] < 0x80,
    ensures
        is_utf8(s),
    decreases s.len(),
{
    if s.len() > 0 {
        lemma_ascii_is_utf8(s.skip(1));
    }
}

/// Whether the bytes are well-formed UTF-8, decided in one pass.
pub fn validate_utf8(bytes: &Vec<u8>) -> (ok: bool)
    ensures
        ok == is_utf8(bytes@),
{
    let n = bytes.len();
    let mut i: usize = 0;
    proof {
        assert(bytes@.skip(0) =~= bytes@);
    }
    while i < n
        invariant
            i <= n,
            n == bytes@.len(),
            is_utf8(bytes@) == is_utf8(bytes@.skip(i as int)),
        decreases n - i,
    {
        let ghost rest = bytes@.skip(i as int);
        let b0 = bytes[i];
        let width: usize = if b0 < 0x80 {
            1
        } else if 0xC2 <= b0 && b0 <= 0xDF {
            2
        } else if 0xE0 <= b0 && b0 <= 0xEF {
            3
        } else if 0xF0 <= b0 && b0 <= 0xF4 {
            4
        } else {
            proof {
                assert(!is_utf8(rest));
            }
            return false;
        };
        if n - i < width {
            proof {
                assert(rest.len() < width);
                assert(!is_utf8(rest));
            }
            return false;
        }
        let ok = if width == 1 {
            true
        } else if width == 2 {
            let b1 = bytes[i + 1];
            0x80 <= b1 && b1 <= 0xBF
        } else if width == 3 {
            let b1 = bytes[i + 1];
            let b2 = bytes[i + 2];
            let first_ok = if b0 == 0xE0 {
                0xA0 <= b1 && b1 <= 0xBF
            } else if b0 == 0xED {
                0x80 <= b1 && b1 <= 0x9F
            } else {
                0x80 <= b1 && b1 <= 0xBF
            };
            first_ok && 0x80 <= b2 && b2 <= 0xBF
        } else {
            let b1 = bytes[i + 1];
            let b2 = bytes[i + 2];
            let b3 = bytes[i + 3];
            let first_ok = if b0 == 0xF0 {
                0x90 <= b1 && b1 <= 0xBF
            } else if b0 == 0xF4 {
                0x80 <= b1 && b1 <= 0x8F
            } else {
                0x80 <= b1 && b1 <= 0xBF
            };
            first_ok && 0x80 <= b2 && b2 <= 0xBF && 0x80 <= b3 && b3 <= 0xBF
        };
        if !ok {
            proof {
                assert(!is_utf8(rest));
            }
            return false;
        }
        proof {
            assert(rest.skip(width as int) =~= bytes@.skip(i + width as int));
            assert(is_utf8(rest) == is_utf8(rest.skip(width as int)));
        }
        i += width;
    }
    proof {
        assert(bytes@.skip(n as int) =~= Seq::<u8>::empty());
    }
    true
}

/// The client greeting as a byte vector ready to be written to the peer.
pub fn client_greeting() -> (greet: Vec<u8>)
    ensures
        greet@ == client_greet_bytes(),
{
    let greet: Vec<u8> = vec![
        104u8, 101u8, 108u8, 108u8, 111u8, 44u8, 32u8, 115u8, 121u8, 110u8, 99u8, 116u8, 114u8,
        97u8, 99u8, 107u8, 101u8, 114u8, 33u8,
    ];
    proof {
        assert(greet@ =~= client_greet_bytes());
    }
    greet
}

/// The reply the server is expected to send, as a byte vector.
pub fn server_greeting() -> (greet: Vec<u8>)
    ensures
        greet@ == server_greet_bytes(),
{
    let greet: Vec<u8> = vec![
        104u8, 101u8, 108u8, 108u8, 111u8, 44u8, 32u8, 100u8, 101u8, 109u8, 111u8, 33u8,
    ];
    proof {
        assert(greet@ =~= server_greet_bytes());
    }
    greet
}

/// Classifies the peer's 12-byte reply: exactly the expected greeting is
/// accepted; any other text is a greeting mismatch (BadServerGreeting), and
/// bytes that are not UTF-8 at all are a parse failure (CantParseGreeting).
pub fn check_server_greeting(response: &Vec<u8>) -> (check: Result<(), SyncError>)
    requires
        response@.len() == server_greet_bytes().len(),
    ensures
        check == Ok::<(), SyncError>(()) <==> response@ == server_greet_bytes(),
        response@ != server_greet_bytes() && is_utf8(response@) ==> check == Err::<
            (),
            SyncError,
        >(SyncError::BadServerGreeting),
        !is_utf8(response@) ==> check == Err::<(), SyncError>(SyncError::CantParseGreeting),
{
    proof {
        lemma_ascii_is_utf8(server_greet_bytes());
    }
    if !validate_utf8(response) {
        return Err(SyncError::CantParseGreeting);
    }
    let expected = server_greeting();
    let n = expected.len();
    let mut i: usize = 0;
    while i < n
        invariant
            i <= n,
            n == server_greet_bytes().len(),
            expected@ == server_greet_bytes(),
            response@.len() == n,
            is_utf8(response@),
            forall|j: int| 0 <= j < i ==> response@[j] == server_greet_bytes()[j],
        decreases n - i,
    {
        if response[i] != expected[i] {
            return Err(SyncError::BadServerGreeting);
        }
        i += 1;
    }
    proof {
        assert(response@ =~= server_greet_bytes());
    }
    Ok(())
}

} // verus!
