//! Session strings: the `LPS1:` tag of version 1 session data followed by the base64 text of the
//! compressed session bytes.

use vstd::prelude::*;

use crate::substrate::buffer_serde::{
    base64_decode, base64_decode_error, base64_decoded, base64_encode, base64_encoded,
};

verus! {

/// The byte at which the payload of a session string is read. The tag `LPS1:` is five bytes
/// long, and the reader skips three more bytes after it.
pub const SESSION_PAYLOAD_OFFSET: usize = 8;

/// Why a session string was refused.
#[derive(Debug, PartialEq, Eq)]
pub enum SessionStringError {
    /// The string does not start with the `LPS1:` tag of version 1 session data.
    NotVersion1,
    /// The string ends before its payload offset, or the offset falls inside a character.
    Malformed,
    /// The payload is not valid base64; the decoder's message.
    Base64(String),
}

impl SessionStringError {
    /// The message shown for a refused session string.
    pub fn message(&self) -> (r: String)
        ensures
            self is NotVersion1 ==> r@
                == "String is not valid LogicPaint Session Version 1 data."@,
            self is Base64 ==> r@
                == "Data is not valid Base64. Are you missing some characters at the end?"@,
            self is Malformed ==> r@ == "Session data has no payload at byte 8."@,
    {
        match self {
            SessionStringError::NotVersion1 => String::from_str(
                "String is not valid LogicPaint Session Version 1 data.",
            ),
            SessionStringError::Malformed => String::from_str(
                "Session data has no payload at byte 8.",
            ),
            SessionStringError::Base64(_) => String::from_str(
                "Data is not valid Base64. Are you missing some characters at the end?",
            ),
        }
    }
}

/// `s` starts with the tag `LPS1:`.
pub open spec fn spec_has_lps1_tag(s: Seq<char>) -> bool {
    s.len() >= 5 && s.take(5) == seq!['L', 'P', 'S', '1', ':']
}

/// How many bytes UTF-8 takes for `c`.
pub open spec fn spec_utf8_width(c: char) -> int {
    if (c as u32) < 0x80 {
        1
    } else if (c as u32) < 0x800 {
        2
    } else if (c as u32) < 0x10000 {
        3
    } else {
        4
    }
}

/// How many bytes UTF-8 takes for `s`.
pub open spec fn spec_utf8_len(s: Seq<char>) -> int
    decreases s.len(),
{
    if s.len() == 0 {
        0
    } else {
        spec_utf8_len(s.drop_last()) + spec_utf8_width(s.last())
    }
}

/// The first `k` characters of `s` take exactly `SESSION_PAYLOAD_OFFSET` bytes: the payload of
/// `s` is then its characters from `k` on.
pub open spec fn spec_payload_cut(s: Seq<char>, k: int) -> bool {
    0 <= k <= s.len() && spec_utf8_len(s.take(k)) == SESSION_PAYLOAD_OFFSET
}

/// `s` can be cut at byte `SESSION_PAYLOAD_OFFSET`: the byte lies on a character boundary.
pub open spec fn spec_sliceable_at_8(s: Seq<char>) -> bool {
    exists|k: int| spec_payload_cut(s, k)
}

/// A longer prefix takes more bytes.
proof fn lemma_utf8_len_grows(s: Seq<char>, i: int, j: int)
    requires
        0 <= i < j <= s.len(),
    ensures
        spec_utf8_len(s.take(i)) < spec_utf8_len(s.take(j)),
    decreases j - i,
{
    assert(s.take(j).drop_last() =~= s.take(j - 1));
    if i < j - 1 {
        lemma_utf8_len_grows(s, i, j - 1);
    }
}

fn utf8_width(c: char) -> (w: usize)
    ensures
        w == spec_utf8_width(c),
{
    let v = c as u32;
    if v < 0x80 {
        1
    } else if v < 0x800 {
        2
    } else if v < 0x10000 {
        3
    } else {
        4
    }
}

/// The compressed session bytes that a session string carries. The string must start with the
/// tag `LPS1:`; the payload is read as base64 from byte `SESSION_PAYLOAD_OFFSET` on, three bytes
/// after the end of the tag (where the reader has always cut it, although `session_string`
/// writes the payload right after the tag).
pub fn session_payload(data: &str) -> (r: Result<Vec<u8>, SessionStringError>)
    ensures
        !spec_has_lps1_tag(data@) ==> r matches Err(SessionStringError::NotVersion1),
        spec_has_lps1_tag(data@) && !spec_sliceable_at_8(data@) ==> r matches Err(
            SessionStringError::Malformed,
        ),
        forall|k: int|
            spec_has_lps1_tag(data@) && #[trigger] spec_payload_cut(data@, k) ==> {
                &&& (r is Ok <==> base64_decoded(data@.skip(k)) is Some)
                &&& (r matches Ok(b) ==> base64_decoded(data@.skip(k)) == Some(b@))
                &&& (r matches Err(e) ==> e is Base64)
                &&& (r matches Err(SessionStringError::Base64(m)) ==> m@ == base64_decode_error(
                    data@.skip(k),
                ))
            },
{
    let n = data.unicode_len();
    if n < 5 {
        return Err(SessionStringError::NotVersion1);
    }
    let tagged = data.get_char(0) == 'L' && data.get_char(1) == 'P' && data.get_char(2) == 'S'
        && data.get_char(3) == '1' && data.get_char(4) == ':';
    if !tagged {
        proof {
            if spec_has_lps1_tag(data@) {
                assert(data@.take(5)[0] == data@[0]);
                assert(data@.take(5)[1] == data@[1]);
                assert(data@.take(5)[2] == data@[2]);
                assert(data@.take(5)[3] == data@[3]);
                assert(data@.take(5)[4] == data@[4]);
            }
        }
        return Err(SessionStringError::NotVersion1);
    }
    assert(data@.take(5) =~= seq!['L', 'P', 'S', '1', ':']);
    let mut k: usize = 0;
    let mut bytes: usize = 0;
    while bytes < SESSION_PAYLOAD_OFFSET && k < n
        invariant
            n == data@.len(),
            k <= n,
            bytes == spec_utf8_len(data@.take(k as int)),
            forall|j: int| 0 <= j < k ==> spec_utf8_len(#[trigger] data@.take(j)) < SESSION_PAYLOAD_OFFSET,
        decreases n - k,
    {
        let c = data.get_char(k);
        let w = utf8_width(c);
        assert(data@.take(k + 1).drop_last() =~= data@.take(k as int));
        bytes = bytes + w;
        k = k + 1;
    }
    if bytes != SESSION_PAYLOAD_OFFSET {
        proof {
            assert forall|j: int| !spec_payload_cut(data@, j) by {
                if 0 <= j <= data@.len() && j > k {
                    lemma_utf8_len_grows(data@, k as int, j);
                }
            }
        }
        return Err(SessionStringError::Malformed);
    }
    proof {
        assert(spec_payload_cut(data@, k as int));
        assert forall|j: int| #[trigger] spec_payload_cut(data@, j) implies j == k by {
            if j > k {
                lemma_utf8_len_grows(data@, k as int, j);
            }
        }
    }
    let payload = data.substring_char(k, n);
    assert(payload@ =~= data@.skip(k as int));
    match base64_decode(payload) {
        Ok(b) => Ok(b),
        Err(m) => Err(SessionStringError::Base64(m)),
    }
}

/// The session string of the compressed session bytes `payload`: the tag `LPS1:` followed by
/// the base64 text of `payload`.
pub fn session_string(payload: &Vec<u8>) -> (r: String)
    ensures
        r@ == seq!['L', 'P', 'S', '1', ':'] + base64_encoded(payload@),
{
    let mut s = String::from_str("LPS1:");
    let text = base64_encode(payload);
    s.append(text.as_str());
    proof {
        reveal_strlit("LPS1:");
        assert("LPS1:"@ =~= seq!['L', 'P', 'S', '1', ':']);
    }
    s
}

} // verus!
