use vstd::prelude::*;

use base64::Engine;
use rand::TryRng;

use crate::entity::message;

verus! {

/// The sending half of a `tokio` channel, carried through unopened.
#[verifier::external_type_specification]
#[verifier::external_body]
#[verifier::reject_recursive_types(T)]
pub struct ExMpscSender<T>(tokio::sync::mpsc::Sender<T>);

/// The URL-safe base64 alphabet of RFC 4648: `A`-`Z`, `a`-`z`, `0`-`9`, `-`, `_`.
pub open spec fn url_safe_alphabet() -> Seq<char> {
    seq![
        'A', 'B', 'C', 'D', 'E', 'F', 'G', 'H', 'I', 'J', 'K', 'L', 'M', 'N', 'O', 'P', 'Q', 'R',
        'S', 'T', 'U', 'V', 'W', 'X', 'Y', 'Z', 'a', 'b', 'c', 'd', 'e', 'f', 'g', 'h', 'i', 'j',
        'k', 'l', 'm', 'n', 'o', 'p', 'q', 'r', 's', 't', 'u', 'v', 'w', 'x', 'y', 'z', '0', '1',
        '2', '3', '4', '5', '6', '7', '8', '9', '-', '_',
    ]
}

/// A character of the URL-safe base64 alphabet.
pub open spec fn is_url_safe_base64_char(c: char) -> bool {
    url_safe_alphabet().contains(c)
}

/// The character that encodes the 6-bit value `v`.
pub open spec fn sextet_char(v: u8) -> char {
    url_safe_alphabet()[v as int]
}

/// URL-safe base64 without padding (RFC 4648, sections 4 and 5): every group
/// of three bytes becomes four characters of six bits each; a final group of
/// two bytes becomes three characters and one of one byte two, the unused
/// low bits set to zero.
pub open spec fn base64_url_no_pad(b: Seq<u8>) -> Seq<char>
    decreases b.len(),
{
    if b.len() == 0 {
        Seq::empty()
    } else if b.len() == 1 {
        seq![sextet_char(b[0] >> 2), sextet_char((b[0] & 3) << 4)]
    } else if b.len() == 2 {
        seq![
            sextet_char(b[0] >> 2),
            sextet_char(((b[0] & 3) << 4) | (b[1] >> 4)),
            sextet_char((b[1] & 15) << 2),
        ]
    } else {
        seq![
            sextet_char(b[0] >> 2),
            sextet_char(((b[0] & 3) << 4) | (b[1] >> 4)),
            sextet_char(((b[1] & 15) << 2) | (b[2] >> 6)),
            sextet_char(b[2] & 63),
        ] + base64_url_no_pad(b.subrange(3, b.len() as int))
    }
}

proof fn lemma_sextet_in_alphabet(v: u8)
    requires
        v < 64,
    ensures
        is_url_safe_base64_char(sextet_char(v)),
{
    assert(url_safe_alphabet().len() == 64);
    assert(url_safe_alphabet()[v as int] == sextet_char(v));
}

/// The encoding of `n` bytes is `ceil(4n/3)` characters of the URL-safe alphabet.
pub proof fn lemma_base64_url_no_pad_shape(b: Seq<u8>)
    ensures
        base64_url_no_pad(b).len() == (4 * b.len() + 2) / 3,
        forall|i: int|
            0 <= i < base64_url_no_pad(b).len() ==> is_url_safe_base64_char(
                #[trigger] base64_url_no_pad(b)[i],
            ),
    decreases b.len(),
{
    let e = base64_url_no_pad(b);
    if b.len() == 0 {
    } else if b.len() == 1 {
        let b0 = b[0];
        assert(b0 >> 2 < 64 && (b0 & 3) << 4 < 64) by (bit_vector);
        lemma_sextet_in_alphabet(b0 >> 2);
        lemma_sextet_in_alphabet((b0 & 3) << 4);
        assert forall|i: int| 0 <= i < e.len() implies is_url_safe_base64_char(#[trigger] e[i]) by {
            if i == 0 {
                assert(e[i] == sextet_char(b0 >> 2));
            } else {
                assert(e[i] == sextet_char((b0 & 3) << 4));
            }
        }
    } else if b.len() == 2 {
        let b0 = b[0];
        let b1 = b[1];
        assert(b0 >> 2 < 64 && ((b0 & 3) << 4) | (b1 >> 4) < 64 && (b1 & 15) << 2 < 64)
            by (bit_vector);
        lemma_sextet_in_alphabet(b0 >> 2);
        lemma_sextet_in_alphabet(((b0 & 3) << 4) | (b1 >> 4));
        lemma_sextet_in_alphabet((b1 & 15) << 2);
        assert forall|i: int| 0 <= i < e.len() implies is_url_safe_base64_char(#[trigger] e[i]) by {
            if i == 0 {
                assert(e[i] == sextet_char(b0 >> 2));
            } else if i == 1 {
                assert(e[i] == sextet_char(((b0 & 3) << 4) | (b1 >> 4)));
            } else {
                assert(e[i] == sextet_char((b1 & 15) << 2));
            }
        }
    } else {
        let b0 = b[0];
        let b1 = b[1];
        let b2 = b[2];
        let rest = b.subrange(3, b.len() as int);
        lemma_base64_url_no_pad_shape(rest);
        assert(b0 >> 2 < 64 && ((b0 & 3) << 4) | (b1 >> 4) < 64 && ((b1 & 15) << 2) | (b2 >> 6)
            < 64 && b2 & 63 < 64) by (bit_vector);
        lemma_sextet_in_alphabet(b0 >> 2);
        lemma_sextet_in_alphabet(((b0 & 3) << 4) | (b1 >> 4));
        lemma_sextet_in_alphabet(((b1 & 15) << 2) | (b2 >> 6));
        lemma_sextet_in_alphabet(b2 & 63);
        let head = seq![
            sextet_char(b0 >> 2),
            sextet_char(((b0 & 3) << 4) | (b1 >> 4)),
            sextet_char(((b1 & 15) << 2) | (b2 >> 6)),
            sextet_char(b2 & 63),
        ];
        let tail = base64_url_no_pad(rest);
        assert(e == head + tail);
        assert forall|i: int| 0 <= i < e.len() implies is_url_safe_base64_char(#[trigger] e[i]) by {
            if i < 4 {
                assert(e[i] == head[i]);
            } else {
                assert(e[i] == tail[i - 4]);
            }
        }
    }
}

/// Calls `base64::engine::general_purpose::URL_SAFE_NO_PAD.encode`, which
/// encodes with the alphabet `A-Za-z0-9-_` and no padding; claimed: the text is
/// `base64_url_no_pad` of the bytes. The bound on the length keeps `encode`'s
/// own length computation (`encoded_len`) from overflowing, where it panics.
#[verifier::external_body]
fn encode_url_safe_no_pad(bytes: &[u8]) -> (text: String)
    requires
        bytes@.len() <= usize::MAX / 4,
    ensures
        text@ == base64_url_no_pad(bytes@),
{
    base64::engine::general_purpose::URL_SAFE_NO_PAD.encode(bytes)
}

/// Fills `n` bytes from the operating system's generator through
/// `rand::rngs::SysRng::try_fill_bytes`, or `None` when that call reports an
/// error. Only the length is claimed of the bytes; what they are is chance,
/// and so is whether the call fails.
#[verifier::external_body]
fn os_random_bytes(n: usize) -> (bytes: Option<Vec<u8>>)
    ensures
        bytes matches Some(b) ==> b@.len() == n,
{
    let mut buf = vec![0u8; n];
    match rand::rngs::SysRng.try_fill_bytes(&mut buf) {
        Ok(()) => Some(buf),
        Err(_) => None,
    }
}

/// How many random bytes a session id is made of.
pub const SESSION_ID_BYTES: usize = 32;

/// The text of a session id: 32 random bytes in URL-safe base64 without
/// padding, hence 43 characters of that alphabet.
pub open spec fn is_session_token(text: Seq<char>) -> bool {
    &&& exists|bytes: Seq<u8>| bytes.len() == SESSION_ID_BYTES && text == #[trigger] base64_url_no_pad(bytes)
    &&& text.len() == 43
    &&& forall|i: int| 0 <= i < text.len() ==> is_url_safe_base64_char(#[trigger] text[i])
}

/// The identifier of one websocket session.
#[derive(Clone, Debug, PartialEq, Eq, Hash)]
pub struct SessionId(pub String);

impl SessionId {
    /// The id whose text is the URL-safe base64 encoding of `bytes`.
    pub fn from_random_bytes(bytes: &[u8]) -> (id: SessionId)
        requires
            bytes@.len() <= usize::MAX / 4,
        ensures
            id.0@ == base64_url_no_pad(bytes@),
    {
        SessionId(encode_url_safe_no_pad(bytes))
    }

    /// A fresh identifier drawn from the operating system's generator; `None`
    /// when the generator reports an error.
    pub fn new() -> (id: Option<SessionId>)
        ensures
            id matches Some(i) ==> is_session_token(i.0@),
    {
        match os_random_bytes(SESSION_ID_BYTES) {
            None => None,
            Some(bytes) => {
                let id = SessionId::from_random_bytes(bytes.as_slice());
                proof {
                    lemma_base64_url_no_pad_shape(bytes@);
                    assert(bytes@.len() == 32);
                }
                Some(id)
            },
        }
    }

    /// Same as [`SessionId::new`]: every default id is a fresh random one.
    pub fn default() -> (id: Option<SessionId>)
        ensures
            id matches Some(i) ==> is_session_token(i.0@),
    {
        SessionId::new()
    }
}

/// A member of a live room: its session, its user and the channel that
/// delivers the room's messages to its socket.
pub struct SessionHandle {
    pub session_id: SessionId,
    pub user_name: String,
    pub tx: tokio::sync::mpsc::Sender<message::Model>,
}

impl SessionHandle {
    /// The handle of the session `session_id` of `user_name`, whose room
    /// messages go to `tx`.
    pub fn with_id(session_id: SessionId, user_name: String, tx: tokio::sync::mpsc::Sender<message::Model>) -> (h:
        SessionHandle)
        ensures
            h.session_id == session_id,
            h.user_name == user_name,
            h.tx == tx,
    {
        SessionHandle { session_id, user_name, tx }
    }

    /// A handle (`with_id`) with a fresh session id; `None` when no id could
    /// be drawn.
    pub fn new(user_name: String, tx: tokio::sync::mpsc::Sender<message::Model>) -> (h: Option<SessionHandle>)
        ensures
            h matches Some(h) ==> h.user_name == user_name && h.tx == tx && is_session_token(
                h.session_id.0@,
            ),
    {
        match SessionId::default() {
            None => None,
            Some(session_id) => Some(SessionHandle::with_id(session_id, user_name, tx)),
        }
    }
}

} // verus!
