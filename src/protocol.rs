//! Protocol sniffing on the first bytes of a connection, and what the
//! connection does next.
use vstd::prelude::*;

verus! {

#[derive(Debug, Clone, Copy, PartialEq, Eq, Structural)]
pub enum Protocol {
    Http1,
    WebSocket,
    Http2,
    Unknown,
    /// Fewer than four bytes have arrived: read more before deciding.
    Incomplete,
}

/// How many leading bytes are looked at.
pub const SNIFF_LEN: usize = 7;

/// The leading token names a method of HTTP/1.x.
pub open spec fn is_http1_token(t: Seq<u8>) -> bool {
    t == seq![71u8, 69u8, 84u8] || t == seq![80u8, 79u8, 83u8, 84u8] || t == seq![80u8, 85u8, 84u8]
        || t == seq![72u8, 69u8, 65u8, 68u8] || t == seq![68u8, 69u8, 76u8, 69u8, 84u8, 69u8]
        || t == seq![80u8, 65u8, 84u8, 67u8, 72u8]
}

/// The leading token of the HTTP/2 connection preface.
pub open spec fn is_http2_token(t: Seq<u8>) -> bool {
    t == seq![80u8, 82u8, 73u8]
}

/// The index of the first space in `b`, if any.
pub open spec fn first_space(b: Seq<u8>) -> Option<int> {
    if exists|i: int| 0 <= i < b.len() && b[i] == 32u8 && forall|j: int| 0 <= j < i ==> b[j] != 32u8 {
        Some(choose|i: int| 0 <= i < b.len() && b[i] == 32u8 && forall|j: int| 0 <= j < i ==> b[j] != 32u8)
    } else {
        None
    }
}

/// The protocol that the first bytes of a connection show.
pub open spec fn protocol_of(b: Seq<u8>) -> Protocol {
    let head = if b.len() <= SNIFF_LEN { b } else { b.take(SNIFF_LEN as int) };
    if b.len() < 4 {
        Protocol::Incomplete
    } else {
        match first_space(head) {
            Some(i) => if is_http1_token(head.take(i)) {
                Protocol::Http1
            } else if is_http2_token(head.take(i)) {
                Protocol::Http2
            } else {
                Protocol::Unknown
            },
            None => Protocol::Unknown,
        }
    }
}

/// The first `n` bytes of `buffer`, or all of them.
pub fn peek(buffer: &[u8], n: usize) -> (r: Vec<u8>)
    ensures
        r@ == if buffer@.len() <= n { buffer@ } else { buffer@.take(n as int) },
{
    let end = if n < buffer.len() { n } else { buffer.len() };
    let mut r: Vec<u8> = Vec::new();
    let mut i: usize = 0;
    while i < end
        invariant
            i <= end <= buffer@.len(),
            r@ == buffer@.take(i as int),
        decreases end - i,
    {
        r.push(buffer[i]);
        i = i + 1;
        assert(r@ =~= buffer@.take(i as int));
    }
    assert(buffer@.take(buffer@.len() as int) =~= buffer@);
    r
}

fn bytes_eq(a: &Vec<u8>, lo: usize, hi: usize, lit: &Vec<u8>) -> (r: bool)
    requires
        lo <= hi <= a@.len(),
    ensures
        r == (a@.subrange(lo as int, hi as int) == lit@),
{
    if hi - lo != lit.len() {
        return false;
    }
    let mut i: usize = 0;
    while i < lit.len()
        invariant
            hi - lo == lit@.len(),
            lo <= hi <= a@.len(),
            i <= lit@.len(),
            forall|j: int| 0 <= j < i ==> a@[lo + j] == lit@[j],
        decreases lit.len() - i,
    {
        if a[lo + i] != lit[i] {
            assert(a@.subrange(lo as int, hi as int)[i as int] != lit@[i as int]);
            return false;
        }
        i = i + 1;
    }
    assert(a@.subrange(lo as int, hi as int) =~= lit@);
    true
}

/// Classifies a connection by its first bytes: an HTTP/1.x method or the
/// HTTP/2 preface before the first space among the first seven bytes.
pub fn detect_protocol(bytes: &[u8]) -> (r: Protocol)
    ensures
        r == protocol_of(bytes@),
{
    if bytes.len() < 4 {
        return Protocol::Incomplete;
    }
    let head = peek(bytes, SNIFF_LEN);
    let mut i: usize = 0;
    while i < head.len() && head[i] != 32u8
        invariant
            i <= head@.len(),
            forall|j: int| 0 <= j < i ==> head@[j] != 32u8,
        decreases head.len() - i,
    {
        i = i + 1;
    }
    if i == head.len() {
        proof {
            if exists|k: int| 0 <= k < head@.len() && head@[k] == 32u8 && forall|j: int| 0 <= j < k ==> head@[j] != 32u8 {
                let k = choose|k: int| 0 <= k < head@.len() && head@[k] == 32u8 && forall|j: int| 0 <= j < k ==> head@[j] != 32u8;
                assert(head@[k] != 32u8);
            }
        }
        return Protocol::Unknown;
    }
    proof {
        let k = choose|k: int| 0 <= k < head@.len() && head@[k] == 32u8 && forall|j: int| 0 <= j < k ==> head@[j] != 32u8;
        if k < i {
            assert(head@[k] != 32u8);
        }
        if i < k {
            assert(head@[i as int] != 32u8);
        }
        assert(first_space(head@) == Some(i as int));
        assert(head@.subrange(0, i as int) =~= head@.take(i as int));
    }
    let h1 = bytes_eq(&head, 0, i, &vec![71u8, 69u8, 84u8]) || bytes_eq(&head, 0, i, &vec![80u8, 79u8, 83u8, 84u8]) || bytes_eq(&head, 0, i, &vec![80u8, 85u8, 84u8])
        || bytes_eq(&head, 0, i, &vec![72u8, 69u8, 65u8, 68u8]) || bytes_eq(&head, 0, i, &vec![68u8, 69u8, 76u8, 69u8, 84u8, 69u8]) || bytes_eq(&head, 0, i, &vec![80u8, 65u8, 84u8, 67u8, 72u8]);
    if h1 {
        Protocol::Http1
    } else if bytes_eq(&head, 0, i, &vec![80u8, 82u8, 73u8]) {
        Protocol::Http2
    } else {
        Protocol::Unknown
    }
}

/// What a connection does next.
#[derive(Debug, Clone, Copy, PartialEq, Eq, Structural)]
pub enum ConnAction {
    /// The peer closed before sending anything.
    Close,
    /// Too few bytes to classify: read more.
    ReadMore,
    /// An HTTP/1.x request: handle it, write the response, close.
    Respond,
    /// Another or an unknown protocol: close without answering.
    Drop,
}

/// The action for a connection that has buffered `buffer`, the last read
/// having returned `last_read` bytes.
pub open spec fn action_of(buffer: Seq<u8>, last_read: nat) -> ConnAction {
    if last_read == 0 {
        if buffer.len() == 0 { ConnAction::Close } else { ConnAction::Drop }
    } else {
        match protocol_of(buffer) {
            Protocol::Http1 => ConnAction::Respond,
            Protocol::Incomplete => ConnAction::ReadMore,
            _ => ConnAction::Drop,
        }
    }
}

/// Decides what a connection does after a read: a read of nothing ends it,
/// a request of HTTP/1.x is answered, too few bytes ask for another read,
/// and anything else is dropped without an answer.
pub fn next_action(buffer: &[u8], last_read: usize) -> (r: ConnAction)
    ensures
        r == action_of(buffer@, last_read as nat),
{
    if last_read == 0 {
        if buffer.len() == 0 {
            ConnAction::Close
        } else {
            ConnAction::Drop
        }
    } else {
        match detect_protocol(buffer) {
            Protocol::Http1 => ConnAction::Respond,
            Protocol::Incomplete => ConnAction::ReadMore,
            _ => ConnAction::Drop,
        }
    }
}

} // verus!
