//! The envelope that the push/pull trigger tool sends to the daemon.
//!
//! Layout: kind (`u8`, 0 = push, 1 = pull), recursive flag (`u8`, 0 or 1),
//! stash flag (`u8`, 0 or 1), target length (`u32`, little endian), then the
//! target path as UTF-8.

use vstd::prelude::*;
use vstd::utf8::*;

verus! {

broadcast use {encode_utf8_valid_utf8, encode_utf8_decode_utf8, decode_utf8_encode_utf8};

/// Bytes before the target path.
pub const HEADER_LEN: usize = 7;

#[derive(Clone, Copy, Debug, PartialEq, Eq, Structural)]
pub enum NCSyncKind {
    Push,
    Pull,
}

#[derive(Clone, Debug)]
pub struct NCSyncMessage {
    pub kind: NCSyncKind,
    pub is_recursive: bool,
    pub use_stash: bool,
    pub target: String,
}

pub open spec fn kind_byte(k: NCSyncKind) -> u8 {
    match k {
        NCSyncKind::Push => 0,
        NCSyncKind::Pull => 1,
    }
}

pub open spec fn flag_byte(b: bool) -> u8 {
    if b { 1 } else { 0 }
}

/// The four little-endian bytes of `n`.
pub open spec fn le32(n: nat) -> Seq<u8> {
    seq![(n % 256) as u8, ((n / 256) % 256) as u8, ((n / 65536) % 256) as u8, ((n / 16777216) % 256) as u8]
}

/// The value of four little-endian bytes.
pub open spec fn le32_value(b: Seq<u8>) -> nat {
    b[0] as nat + 256 * (b[1] as nat) + 65536 * (b[2] as nat) + 16777216 * (b[3] as nat)
}

/// The bytes that stand for a message whose target is `target`.
pub open spec fn envelope(kind: NCSyncKind, recursive: bool, stash: bool, target: Seq<char>) -> Seq<u8> {
    seq![kind_byte(kind), flag_byte(recursive), flag_byte(stash)]
        + le32(encode_utf8(target).len())
        + encode_utf8(target)
}

/// A byte string that the daemon accepts as a message.
pub open spec fn well_formed(b: Seq<u8>) -> bool {
    &&& b.len() >= 7
    &&& b[0] <= 1
    &&& b[1] <= 1
    &&& b[2] <= 1
    &&& b.len() == 7 + le32_value(b.subrange(3, 7))
    &&& valid_utf8(b.skip(7))
}

impl NCSyncMessage {
    pub open spec fn bytes(&self) -> Seq<u8> {
        envelope(self.kind, self.is_recursive, self.use_stash, self.target@)
    }

    /// Encodes the message.
    pub fn to_bytes(&self) -> (r: Vec<u8>)
        requires
            encode_utf8(self.target@).len() <= u32::MAX,
        ensures
            r@ == self.bytes(),
    {
        let target_bytes = self.target.as_str().as_bytes();
        let n = target_bytes.len();
        let mut r: Vec<u8> = Vec::new();
        r.push(match self.kind {
            NCSyncKind::Push => 0u8,
            NCSyncKind::Pull => 1u8,
        });
        r.push(if self.is_recursive { 1u8 } else { 0u8 });
        r.push(if self.use_stash { 1u8 } else { 0u8 });
        let n32 = n as u32;
        r.push((n32 % 256) as u8);
        r.push(((n32 / 256) % 256) as u8);
        r.push(((n32 / 65536) % 256) as u8);
        r.push(((n32 / 16777216) % 256) as u8);
        let ghost head = r@;
        let mut i: usize = 0;
        while i < n
            invariant
                n == target_bytes@.len(),
                target_bytes@ == encode_utf8(self.target@),
                i <= n,
                head.len() == 7,
                r@ == head + target_bytes@.subrange(0, i as int),
            decreases n - i,
        {
            r.push(target_bytes[i]);
            assert(target_bytes@.subrange(0, i + 1) == target_bytes@.subrange(0, i as int).push(target_bytes@[i as int]));
            i = i + 1;
        }
        assert(target_bytes@.subrange(0, n as int) == target_bytes@);
        assert(r@ =~= self.bytes());
        r
    }

    /// Decodes a message; `None` for any byte string that is not well formed.
    pub fn from_bytes(buf: &[u8]) -> (r: Option<NCSyncMessage>)
        ensures
            r is Some <==> well_formed(buf@),
            r matches Some(m) ==> m.bytes() == buf@,
    {
        let len = buf.len();
        if len < HEADER_LEN {
            return None;
        }
        let kind = if buf[0] == 0 {
            NCSyncKind::Push
        } else if buf[0] == 1 {
            NCSyncKind::Pull
        } else {
            return None;
        };
        if buf[1] > 1 || buf[2] > 1 {
            return None;
        }
        let declared: u64 = buf[3] as u64 + 256 * (buf[4] as u64) + 65536 * (buf[5] as u64)
            + 16777216 * (buf[6] as u64);
        assert(declared == le32_value(buf@.subrange(3, 7)));
        if (len - HEADER_LEN) as u64 != declared {
            return None;
        }
        let mut rest: Vec<u8> = Vec::new();
        let mut i: usize = HEADER_LEN;
        while i < len
            invariant
                len == buf@.len(),
                7 <= i <= len,
                rest@ == buf@.subrange(7, i as int),
            decreases len - i,
        {
            rest.push(buf[i]);
            assert(buf@.subrange(7, i + 1) == buf@.subrange(7, i as int).push(buf@[i as int]));
            i = i + 1;
        }
        assert(rest@ == buf@.skip(7));
        match utf8_string(rest) {
            None => None,
            Some(target) => {
                let m = NCSyncMessage {
                    kind,
                    is_recursive: buf[1] == 1,
                    use_stash: buf[2] == 1,
                    target,
                };
                proof {
                    let t = encode_utf8(target@);
                    assert(t == buf@.skip(7));
                    lemma_le32_round(buf@.subrange(3, 7));
                    assert(m.bytes() =~= buf@);
                }
                Some(m)
            },
        }
    }
}

/// A request of the trigger tool, before its paths are expanded.
#[derive(Debug)]
pub enum MessageCommand {
    Push { paths: Vec<String>, recursive: bool },
    Pull { paths: Vec<String>, recursive: bool, stash: bool },
}

impl MessageCommand {
    pub open spec fn kind(&self) -> NCSyncKind {
        match self {
            MessageCommand::Push { .. } => NCSyncKind::Push,
            MessageCommand::Pull { .. } => NCSyncKind::Pull,
        }
    }

    pub open spec fn recursive(&self) -> bool {
        match self {
            MessageCommand::Push { recursive, .. } => *recursive,
            MessageCommand::Pull { recursive, .. } => *recursive,
        }
    }

    pub open spec fn stash(&self) -> bool {
        match self {
            MessageCommand::Push { .. } => false,
            MessageCommand::Pull { stash, .. } => *stash,
        }
    }

    /// One message for each target that the command's paths expanded to.
    pub fn into_messages(&self, targets: &Vec<String>) -> (r: Vec<NCSyncMessage>)
        ensures
            r@.len() == targets@.len(),
            forall|i: int| 0 <= i < r@.len() ==> {
                &&& (#[trigger] r@[i]).kind == self.kind()
                &&& r@[i].is_recursive == self.recursive()
                &&& r@[i].use_stash == self.stash()
                &&& r@[i].target@ == targets@[i]@
            },
    {
        let (kind, is_recursive, use_stash) = match self {
            MessageCommand::Push { recursive, .. } => (NCSyncKind::Push, *recursive, false),
            MessageCommand::Pull { recursive, stash, .. } => (NCSyncKind::Pull, *recursive, *stash),
        };
        let mut r: Vec<NCSyncMessage> = Vec::new();
        let mut i: usize = 0;
        while i < targets.len()
            invariant
                i <= targets@.len(),
                r@.len() == i,
                kind == self.kind(),
                is_recursive == self.recursive(),
                use_stash == self.stash(),
                forall|j: int| 0 <= j < i ==> {
                    &&& (#[trigger] r@[j]).kind == kind
                    &&& r@[j].is_recursive == is_recursive
                    &&& r@[j].use_stash == use_stash
                    &&& r@[j].target@ == targets@[j]@
                },
            decreases targets@.len() - i,
        {
            r.push(NCSyncMessage { kind, is_recursive, use_stash, target: targets[i].clone() });
            i = i + 1;
        }
        r
    }
}

/// An encoded message is well formed, and it decodes to that message alone.
pub proof fn law_envelope_round_trip(m: NCSyncMessage, d: NCSyncMessage)
    requires
        encode_utf8(m.target@).len() <= u32::MAX,
        d.bytes() == m.bytes(),
    ensures
        well_formed(m.bytes()),
        d.kind == m.kind,
        d.is_recursive == m.is_recursive,
        d.use_stash == m.use_stash,
        d.target@ == m.target@,
{
    let b = m.bytes();
    let t = encode_utf8(m.target@);
    let n = t.len();
    assert(b.subrange(3, 7) =~= le32(n));
    assert(le32_value(le32(n)) == n) by (nonlinear_arith)
        requires n <= 0xffff_ffff, le32(n) == seq![(n % 256) as u8, ((n / 256) % 256) as u8, ((n / 65536) % 256) as u8, ((n / 16777216) % 256) as u8];
    assert(b.skip(7) =~= t);
    let dt = encode_utf8(d.target@);
    assert(d.bytes().subrange(3, 7) =~= le32(dt.len()));
    assert(dt =~= d.bytes().skip(7));
    assert(d.bytes()[0] == kind_byte(d.kind));
    assert(d.bytes()[1] == flag_byte(d.is_recursive));
    assert(d.bytes()[2] == flag_byte(d.use_stash));
    assert(b[0] == kind_byte(m.kind));
    assert(b[1] == flag_byte(m.is_recursive));
    assert(b[2] == flag_byte(m.use_stash));
    assert(decode_utf8(dt) == d.target@);
    assert(decode_utf8(t) == m.target@);
}

proof fn lemma_le32_round(b: Seq<u8>)
    requires
        b.len() == 4,
    ensures
        le32(le32_value(b)) == b,
{
    let n = le32_value(b);
    assert(n % 256 == b[0] as nat) by (nonlinear_arith)
        requires n == b[0] as nat + 256 * (b[1] as nat) + 65536 * (b[2] as nat) + 16777216 * (b[3] as nat), b[0] < 256;
    assert((n / 256) % 256 == b[1] as nat) by (nonlinear_arith)
        requires n == b[0] as nat + 256 * (b[1] as nat) + 65536 * (b[2] as nat) + 16777216 * (b[3] as nat), b[0] < 256, b[1] < 256;
    assert((n / 65536) % 256 == b[2] as nat) by (nonlinear_arith)
        requires n == b[0] as nat + 256 * (b[1] as nat) + 65536 * (b[2] as nat) + 16777216 * (b[3] as nat), b[0] < 256, b[1] < 256, b[2] < 256;
    assert(n / 16777216 == b[3] as nat) by (nonlinear_arith)
        requires n == b[0] as nat + 256 * (b[1] as nat) + 65536 * (b[2] as nat) + 16777216 * (b[3] as nat), b[0] < 256, b[1] < 256, b[2] < 256, b[3] < 256;
    assert(le32(n) =~= b);
}

/// Relies on std's `String::from_utf8`: `Ok` exactly when the bytes are valid
/// UTF-8, and then the string holds those bytes.
#[verifier::external_body]
fn utf8_string(b: Vec<u8>) -> (r: Option<String>)
    ensures
        r is Some <==> valid_utf8(b@),
        r matches Some(s) ==> encode_utf8(s@) == b@,
{
    String::from_utf8(b).ok()
}

} // verus!
