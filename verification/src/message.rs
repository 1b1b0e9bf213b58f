//! Messages as they lie in a ring.
//!
//! A message is a header and a payload, padded to a multiple of 32 bytes. The messages of a batch
//! follow one another from the position behind the batch header.

use vstd::prelude::*;

use crate::bytes::{
    le32_at, le32_bytes, le64_at, le64_bytes, lemma_le32_round_trip, lemma_le64_round_trip, overwrite,
};
use crate::ring::lemma_offset_step;

verus! {

/// Which of the two message headers is in use.
#[derive(Clone, Copy, Debug, PartialEq, Eq, Structural)]
pub enum Format {
    /// Call identifier, piggyback, payload length.
    Rc,
    /// Call identifier, payload length.
    Dc,
}

impl Format {
    /// Bytes in a message header.
    pub open spec fn header(self) -> int {
        match self {
            Format::Rc => 16,
            Format::Dc => 8,
        }
    }

    /// Where in the header the payload length stands.
    pub open spec fn len_field(self) -> int {
        match self {
            Format::Rc => 12,
            Format::Dc => 4,
        }
    }

    /// Bytes that a message takes in a ring: header and payload, rounded up to `ALIGNMENT`.
    pub open spec fn padded(self, payload_len: int) -> int {
        (self.header() + payload_len + 31) / 32 * 32
    }

    /// The bytes of a message header.
    pub open spec fn header_bytes(self, call_id: u32, piggyback: u64, payload_len: int) -> Seq<u8> {
        match self {
            Format::Rc => le32_bytes(call_id as int) + le64_bytes(piggyback as int) + le32_bytes(
                payload_len,
            ),
            Format::Dc => le32_bytes(call_id as int) + le32_bytes(payload_len),
        }
    }

    /// The payload length in the header at `offset`.
    pub open spec fn payload_len_at(self, ring: Seq<u8>, offset: int) -> int {
        le32_at(ring, offset + self.len_field())
    }

    /// The message whose header starts at `offset`.
    pub open spec fn message_at(self, ring: Seq<u8>, offset: int) -> Message {
        Message {
            call_id: le32_at(ring, offset) as u32,
            piggyback: match self {
                Format::Rc => le64_at(ring, offset + 4) as u64,
                Format::Dc => 0,
            },
            payload: ring.subrange(
                offset + self.header(),
                offset + self.header() + self.payload_len_at(ring, offset),
            ),
        }
    }

    /// The position behind `n` messages, the first of which starts at position `pos`.
    pub open spec fn messages_end(self, ring: Seq<u8>, pos: int, n: nat) -> int
        decreases n,
    {
        if n == 0 {
            pos
        } else {
            let last = self.messages_end(ring, pos, (n - 1) as nat);
            last + self.padded(self.payload_len_at(ring, last % ring.len() as int))
        }
    }

    /// The `n` messages from position `pos` on.
    pub open spec fn messages(self, ring: Seq<u8>, pos: int, n: nat) -> Seq<Message>
        decreases n,
    {
        if n == 0 {
            Seq::empty()
        } else {
            let last = self.messages_end(ring, pos, (n - 1) as nat);
            self.messages(ring, pos, (n - 1) as nat).push(
                self.message_at(ring, last % ring.len() as int),
            )
        }
    }

    /// The message whose header stands at position `pos` lies inside the ring.
    pub open spec fn message_fits(self, ring: Seq<u8>, pos: int) -> bool {
        let offset = pos % ring.len() as int;
        &&& offset + self.header() <= ring.len()
        &&& offset + self.header() + self.payload_len_at(ring, offset) <= ring.len()
    }

    /// Each of the `n` messages from position `pos` on lies inside the ring.
    pub open spec fn messages_fit(self, ring: Seq<u8>, pos: int, n: nat) -> bool {
        forall|i: nat|
            i < n ==> #[trigger] self.message_fits(ring, self.messages_end(ring, pos, i))
    }
}

/// What a message carries.
#[verifier::ext_equal]
pub ghost struct Message {
    /// Call identifier, with the response flag in place.
    pub call_id: u32,
    /// Response allowance of a request, in blocks of `ALIGNMENT` bytes.
    pub piggyback: u64,
    /// The caller's bytes.
    pub payload: Seq<u8>,
}


/// A message takes at least a block, a whole number of blocks, and holds header and payload.
pub proof fn lemma_padded_bounds(f: Format, payload_len: int)
    requires
        0 <= payload_len,
    ensures
        f.header() + payload_len <= f.padded(payload_len) < f.header() + payload_len + 32,
        f.padded(payload_len) % 32 == 0,
        32 <= f.padded(payload_len),
{
}

/// Messages only ever move the position on.
pub proof fn lemma_messages_end_grows(f: Format, ring: Seq<u8>, pos: int, i: nat, n: nat)
    requires
        i <= n,
    ensures
        f.messages_end(ring, pos, i) + 32 * (n - i) <= f.messages_end(ring, pos, n),
    decreases n,
{
    if i < n {
        lemma_messages_end_grows(f, ring, pos, i, (n - 1) as nat);
        let last = f.messages_end(ring, pos, (n - 1) as nat);
        lemma_padded_bounds(f, f.payload_len_at(ring, last % ring.len() as int));
    }
}

/// Messages keep the position on a block boundary.
pub proof fn lemma_messages_end_aligned(f: Format, ring: Seq<u8>, pos: int, n: nat)
    requires
        pos % 32 == 0,
    ensures
        f.messages_end(ring, pos, n) % 32 == 0,
    decreases n,
{
    if n > 0 {
        lemma_messages_end_aligned(f, ring, pos, (n - 1) as nat);
        let last = f.messages_end(ring, pos, (n - 1) as nat);
        lemma_padded_bounds(f, f.payload_len_at(ring, last % ring.len() as int));
    }
}

/// Two runs of equal bytes, each inside one cycle of its ring, hold the same messages.
pub proof fn lemma_same_bytes_same_messages(
    f: Format,
    r1: Seq<u8>,
    pos1: int,
    r2: Seq<u8>,
    pos2: int,
    n: nat,
)
    requires
        r1.len() > 0,
        r2.len() > 0,
        pos1 % r1.len() as int + (f.messages_end(r1, pos1, n) - pos1) <= r1.len(),
        pos2 % r2.len() as int + (f.messages_end(r1, pos1, n) - pos1) <= r2.len(),
        r1.subrange(
            pos1 % r1.len() as int,
            pos1 % r1.len() as int + (f.messages_end(r1, pos1, n) - pos1),
        ) == r2.subrange(
            pos2 % r2.len() as int,
            pos2 % r2.len() as int + (f.messages_end(r1, pos1, n) - pos1),
        ),
    ensures
        f.messages(r2, pos2, n) == f.messages(r1, pos1, n),
        f.messages_end(r2, pos2, n) - pos2 == f.messages_end(r1, pos1, n) - pos1,
    decreases n,
{
    let l1 = r1.len() as int;
    let l2 = r2.len() as int;
    let o1 = pos1 % l1;
    let o2 = pos2 % l2;
    let span = f.messages_end(r1, pos1, n) - pos1;
    vstd::arithmetic::div_mod::lemma_mod_bound(pos1, l1);
    vstd::arithmetic::div_mod::lemma_mod_bound(pos2, l2);
    if n > 0 {
        let m = (n - 1) as nat;
        let d = f.messages_end(r1, pos1, m) - pos1;
        lemma_messages_end_grows(f, r1, pos1, 0, m);
        lemma_messages_end_grows(f, r1, pos1, m, n);
        assert(0 <= d && d + 32 <= span);
        let s1 = r1.subrange(o1, o1 + span);
        let s2 = r2.subrange(o2, o2 + span);
        assert forall|j: int| o1 <= j < o1 + span implies #[trigger] r1[j] == r2[j - o1 + o2] by {
            assert(s1[j - o1] == r1[j]);
            assert(s2[j - o1] == r2[j - o1 + o2]);
        }
        assert(r1.subrange(o1, o1 + d) =~= r2.subrange(o2, o2 + d));
        lemma_same_bytes_same_messages(f, r1, pos1, r2, pos2, m);
        lemma_offset_step(pos1, l1, d);
        lemma_offset_step(pos2, l2, d);
        let a = (pos1 + d) % l1;
        let b = (pos2 + d) % l2;
        assert(a == o1 + d && b == o2 + d);
        assert(f.payload_len_at(r1, a) == f.payload_len_at(r2, b));
        lemma_padded_bounds(f, f.payload_len_at(r1, a));
        assert(f.message_at(r1, a).payload =~= f.message_at(r2, b).payload);
        assert(f.message_at(r1, a) =~= f.message_at(r2, b));
    }
}

/// Messages that lie inside one ring cycle all lie inside the ring.
pub proof fn lemma_messages_fit(f: Format, ring: Seq<u8>, pos: int, n: nat)
    requires
        ring.len() > 0,
        pos % ring.len() as int + (f.messages_end(ring, pos, n) - pos) <= ring.len(),
    ensures
        f.messages_fit(ring, pos, n),
{
    let l = ring.len() as int;
    assert forall|i: nat| i < n implies #[trigger] f.message_fits(
        ring,
        f.messages_end(ring, pos, i),
    ) by {
        let p = f.messages_end(ring, pos, i);
        lemma_messages_end_grows(f, ring, pos, 0, i);
        lemma_messages_end_grows(f, ring, pos, i, n);
        lemma_messages_end_grows(f, ring, pos, (i + 1) as nat, n);
        lemma_offset_step(pos, l, p - pos);
        lemma_padded_bounds(f, f.payload_len_at(ring, p % l));
    }
}

/// The header of a written message reads back.
pub proof fn lemma_message_round_trip(
    f: Format,
    ring: Seq<u8>,
    offset: int,
    call_id: u32,
    piggyback: u64,
    payload: Seq<u8>,
)
    requires
        0 <= offset,
        payload.len() <= u32::MAX,
        f is Dc ==> piggyback == 0,
        offset + f.header() + payload.len() <= ring.len(),
    ensures
        ({
            let bytes = f.header_bytes(call_id, piggyback, payload.len() as int) + payload;
            let after = overwrite(ring, offset, bytes);
            &&& f.payload_len_at(after, offset) == payload.len()
            &&& f.message_at(after, offset) == (Message { call_id, piggyback, payload })
        }),
{
    let hdr = f.header_bytes(call_id, piggyback, payload.len() as int);
    let bytes = hdr + payload;
    let after = overwrite(ring, offset, bytes);
    assert(hdr.len() == f.header());
    assert(after.subrange(offset, offset + 4) =~= le32_bytes(call_id as int));
    lemma_le32_round_trip(after, offset, call_id);
    match f {
        Format::Rc => {
            assert(after.subrange(offset + 4, offset + 12) =~= le64_bytes(piggyback as int));
            lemma_le64_round_trip(after, offset + 4, piggyback);
            assert(after.subrange(offset + 12, offset + 16) =~= le32_bytes(payload.len() as int));
            lemma_le32_round_trip(after, offset + 12, payload.len() as u32);
        },
        Format::Dc => {
            assert(after.subrange(offset + 4, offset + 8) =~= le32_bytes(payload.len() as int));
            lemma_le32_round_trip(after, offset + 4, payload.len() as u32);
        },
    }
    assert(after.subrange(offset + f.header(), offset + f.header() + payload.len()) =~= payload);
}

/// A message that is written behind the others becomes the last one, and leaves the others as they
/// are.
pub proof fn lemma_append_message(
    f: Format,
    ring: Seq<u8>,
    pos: int,
    n: nat,
    call_id: u32,
    piggyback: u64,
    payload: Seq<u8>,
)
    requires
        ring.len() > 0,
        payload.len() <= u32::MAX,
        f is Dc ==> piggyback == 0,
        pos % ring.len() as int + (f.messages_end(ring, pos, n) - pos) + f.padded(
            payload.len() as int,
        ) <= ring.len(),
    ensures
        ({
            let end = f.messages_end(ring, pos, n);
            let after = overwrite(
                ring,
                end % ring.len() as int,
                f.header_bytes(call_id, piggyback, payload.len() as int) + payload,
            );
            &&& f.messages(after, pos, n + 1) == f.messages(ring, pos, n).push(
                Message { call_id, piggyback, payload },
            )
            &&& f.messages_end(after, pos, n + 1) == end + f.padded(payload.len() as int)
        }),
{
    let l = ring.len() as int;
    let end = f.messages_end(ring, pos, n);
    let hdr = f.header_bytes(call_id, piggyback, payload.len() as int);
    let after = overwrite(ring, end % l, hdr + payload);
    assert(hdr.len() == f.header());
    vstd::arithmetic::div_mod::lemma_mod_bound(pos, l);
    lemma_padded_bounds(f, payload.len() as int);
    lemma_messages_end_grows(f, ring, pos, 0, n);
    lemma_offset_step(pos, l, end - pos);
    assert(ring.subrange(pos % l, pos % l + (end - pos)) =~= after.subrange(
        pos % l,
        pos % l + (end - pos),
    ));
    lemma_same_bytes_same_messages(f, ring, pos, after, pos, n);
    lemma_message_round_trip(f, ring, end % l, call_id, piggyback, payload);
}

/// Bytes that a message with a header of `header` bytes takes: the first multiple of 32 from header and
/// payload on.
proof fn lemma_first_multiple(header: int, payload_len: int, size: int)
    requires
        size == (header + payload_len + 31) / 32 * 32,
    ensures
        size % 32 == 0,
        header + payload_len <= size < header + payload_len + 32,
{
}

/// What a message takes in a ring, and where its parts stand. On reliable connections a header has
/// sixteen bytes: the call identifier, the piggyback and the payload length. On dynamic ones it has
/// eight: the call identifier and the payload length. The payload follows, and the message ends at a
/// multiple of 32 bytes, the first that leaves room for all of it.
pub proof fn law_message_layout(ring: Seq<u8>, offset: int, payload_len: int)
    requires
        0 <= payload_len,
    ensures
        Format::Rc.padded(payload_len) % 32 == 0,
        16 + payload_len <= Format::Rc.padded(payload_len) < 48 + payload_len,
        Format::Dc.padded(payload_len) % 32 == 0,
        8 + payload_len <= Format::Dc.padded(payload_len) < 40 + payload_len,
        Format::Rc.message_at(ring, offset) == (Message {
            call_id: le32_at(ring, offset) as u32,
            piggyback: le64_at(ring, offset + 4) as u64,
            payload: ring.subrange(offset + 16, offset + 16 + le32_at(ring, offset + 12)),
        }),
        Format::Dc.message_at(ring, offset) == (Message {
            call_id: le32_at(ring, offset) as u32,
            piggyback: 0,
            payload: ring.subrange(offset + 8, offset + 8 + le32_at(ring, offset + 4)),
        }),
        Format::Rc.payload_len_at(ring, offset) == le32_at(ring, offset + 12),
        Format::Dc.payload_len_at(ring, offset) == le32_at(ring, offset + 4),
{
    lemma_first_multiple(16, payload_len, Format::Rc.padded(payload_len));
    lemma_first_multiple(8, payload_len, Format::Dc.padded(payload_len));
}

/// What a message header holds.
pub proof fn law_header_layout(call_id: u32, piggyback: u64, payload_len: u32)
    ensures
        ({
            let b = Format::Rc.header_bytes(call_id, piggyback, payload_len as int);
            &&& b.len() == 16
            &&& le32_at(b, 0) == call_id
            &&& le64_at(b, 4) == piggyback
            &&& le32_at(b, 12) == payload_len
        }),
        ({
            let b = Format::Dc.header_bytes(call_id, piggyback, payload_len as int);
            &&& b.len() == 8
            &&& le32_at(b, 0) == call_id
            &&& le32_at(b, 4) == payload_len
        }),
{
    let b = Format::Rc.header_bytes(call_id, piggyback, payload_len as int);
    assert(b.subrange(0, 4) =~= le32_bytes(call_id as int));
    lemma_le32_round_trip(b, 0, call_id);
    assert(b.subrange(4, 12) =~= le64_bytes(piggyback as int));
    lemma_le64_round_trip(b, 4, piggyback);
    assert(b.subrange(12, 16) =~= le32_bytes(payload_len as int));
    lemma_le32_round_trip(b, 12, payload_len);
    let d = Format::Dc.header_bytes(call_id, piggyback, payload_len as int);
    assert(d.subrange(0, 4) =~= le32_bytes(call_id as int));
    lemma_le32_round_trip(d, 0, call_id);
    assert(d.subrange(4, 8) =~= le32_bytes(payload_len as int));
    lemma_le32_round_trip(d, 4, payload_len);
}

/// The messages of a batch follow one another without a gap: each starts where the one before it ends,
/// and none is left out or comes twice.
pub proof fn law_messages_follow(f: Format, ring: Seq<u8>, pos: int, n: nat)
    requires
        0 < ring.len(),
    ensures
        f.messages_end(ring, pos, 0) == pos,
        f.messages(ring, pos, 0) == Seq::<Message>::empty(),
        ({
            let at = f.messages_end(ring, pos, n);
            let offset = at % ring.len() as int;
            let len = match f {
                Format::Rc => 16 + le32_at(ring, offset + 12),
                Format::Dc => 8 + le32_at(ring, offset + 4),
            };
            let end = f.messages_end(ring, pos, n + 1);
            &&& (end - at) % 32 == 0
            &&& at + len <= end < at + len + 32
            &&& f.messages(ring, pos, n + 1) == f.messages(ring, pos, n).push(
                f.message_at(ring, offset),
            )
            &&& f.message_fits(ring, at) <==> offset + len <= ring.len()
        }),
{
    let at = f.messages_end(ring, pos, n);
    let offset = at % ring.len() as int;
    law_message_layout(ring, offset, f.payload_len_at(ring, offset));
}

} // verus!
