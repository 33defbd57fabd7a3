//! Fixed-size packet storage for the in-memory loopback transport: outbound
//! MCTP packets captured in sixteen slots of one MTU each, with no dynamic
//! allocation.

use vstd::prelude::*;

verus! {

/// Maximum packet size (the MCTP MTU of this binding).
pub const MAX_PACKET_SIZE: usize = 255;

/// Maximum number of buffered packets per endpoint.
pub const MAX_BUFFERED_PACKETS: usize = 16;

/// What a packet buffer holds: the bytes in each slot and the number of
/// packets buffered, which fill the first `count` slots.
pub struct PacketBufferView {
    pub slots: Seq<Seq<u8>>,
    pub count: nat,
}

/// Fixed-size buffer for outbound MCTP packets.
pub struct PacketBuffer {
    packets: [[u8; MAX_PACKET_SIZE]; MAX_BUFFERED_PACKETS],
    /// Length of each slot's packet.
    lengths: [usize; MAX_BUFFERED_PACKETS],
    /// Number of packets buffered: they fill the slots before it.
    count: usize,
}

impl View for PacketBuffer {
    type V = PacketBufferView;

    closed spec fn view(&self) -> PacketBufferView {
        PacketBufferView {
            slots: Seq::new(
                MAX_BUFFERED_PACKETS as nat,
                |i: int| self.packets@[i]@.take(self.lengths@[i] as int),
            ),
            count: self.count as nat,
        }
    }
}

impl PacketBuffer {
    /// Every slot fits one MTU, and no more packets are buffered than there
    /// are slots.
    pub closed spec fn wf(&self) -> bool {
        &&& forall|i: int| 0 <= i < MAX_BUFFERED_PACKETS ==> self.lengths@[i] <= MAX_PACKET_SIZE
        &&& self.count <= MAX_BUFFERED_PACKETS
    }

    /// The buffered packets, in the order they were pushed.
    pub closed spec fn packets(&self) -> Seq<Seq<u8>> {
        self@.slots.take(self@.count as int)
    }

    proof fn lemma_view_shape(&self)
        requires
            self.wf(),
        ensures
            self@.slots.len() == MAX_BUFFERED_PACKETS,
            forall|i: int| 0 <= i < MAX_BUFFERED_PACKETS ==> #[trigger] self@.slots[i].len() == self.lengths@[i],
            self@.count <= MAX_BUFFERED_PACKETS,
            self.packets().len() == self@.count,
    {
        assert forall|i: int| 0 <= i < MAX_BUFFERED_PACKETS implies #[trigger] self@.slots[i].len()
            == self.lengths@[i] by {
            assert(self.lengths@[i] <= self.packets@[i]@.len());
        }
    }

    /// Create a new empty packet buffer.
    pub fn new() -> (r: Self)
        ensures
            r.wf(),
            r.packets() == Seq::<Seq<u8>>::empty(),
    {
        let r = PacketBuffer {
            packets: [[0; MAX_PACKET_SIZE]; MAX_BUFFERED_PACKETS],
            lengths: [0; MAX_BUFFERED_PACKETS],
            count: 0,
        };
        assert(r.packets() =~= Seq::<Seq<u8>>::empty());
        r
    }

    /// Add a packet after those already buffered. Fails, changing nothing,
    /// when sixteen packets are buffered or the packet is larger than the
    /// MTU.
    pub fn push(&mut self, data: &[u8]) -> (r: Result<(), ()>)
        requires
            old(self).wf(),
        ensures
            final(self).wf(),
            (r is Ok) <==> (old(self).packets().len() < MAX_BUFFERED_PACKETS && data@.len() <= MAX_PACKET_SIZE),
            (r is Ok) ==> final(self).packets() == old(self).packets().push(data@),
            (r is Err) ==> final(self)@ == old(self)@ && final(self).packets() == old(self).packets(),
    {
        proof {
            self.lemma_view_shape();
        }
        if self.count >= MAX_BUFFERED_PACKETS {
            return Err(());
        }
        if data.len() > MAX_PACKET_SIZE {
            return Err(());
        }
        let ghost slots = self@.slots;
        let i = self.count;
        let mut row: [u8; MAX_PACKET_SIZE] = self.packets[i];
        let mut j: usize = 0;
        while j < data.len()
            invariant
                j <= data@.len(),
                data@.len() <= MAX_PACKET_SIZE,
                row@.len() == MAX_PACKET_SIZE,
                row@.take(j as int) =~= data@.take(j as int),
            decreases data@.len() - j,
        {
            row[j] = data[j];
            j += 1;
        }
        self.packets[i] = row;
        self.lengths[i] = data.len();
        self.count = self.count + 1;
        proof {
            assert(data@.take(data@.len() as int) =~= data@);
            assert(self@.slots =~= slots.update(i as int, data@));
            assert(self@.slots.take(self@.count as int) =~= slots.take(i as int).push(data@));
        }
        Ok(())
    }

    /// The number of packets buffered.
    pub fn len(&self) -> (r: usize)
        requires
            self.wf(),
        ensures
            r == self.packets().len(),
    {
        proof {
            self.lemma_view_shape();
        }
        self.count
    }

    /// Whether no packet is buffered.
    pub fn is_empty(&self) -> (r: bool)
        requires
            self.wf(),
        ensures
            r == (self.packets().len() == 0),
    {
        proof {
            self.lemma_view_shape();
        }
        self.count == 0
    }

    /// An iterator over the buffered packets, in the order they were pushed.
    pub fn iter(&self) -> (r: PacketBufferIter<'_>)
        requires
            self.wf(),
        ensures
            r.wf(),
            r.buffer_view() == self@,
            r.remaining() == self.packets(),
    {
        let r = PacketBufferIter { buffer: self, index: 0 };
        assert(r.remaining() =~= self.packets());
        r
    }

    /// Drop every packet.
    pub fn clear(&mut self)
        requires
            old(self).wf(),
        ensures
            final(self).wf(),
            final(self).packets() == Seq::<Seq<u8>>::empty(),
    {
        self.lengths = [0; MAX_BUFFERED_PACKETS];
        self.count = 0;
        assert(self.packets() =~= Seq::<Seq<u8>>::empty());
    }
}

impl Default for PacketBuffer {
    fn default() -> (r: Self)
        ensures
            r.wf(),
            r.packets() == Seq::<Seq<u8>>::empty(),
    {
        Self::new()
    }
}

/// Iterator over the packets of a [`PacketBuffer`], in the order they were
/// pushed.
pub struct PacketBufferIter<'a> {
    buffer: &'a PacketBuffer,
    index: usize,
}

impl<'a> PacketBufferIter<'a> {
    pub closed spec fn wf(&self) -> bool {
        self.buffer.wf() && self.index <= self.buffer.count
    }

    pub closed spec fn buffer_view(&self) -> PacketBufferView {
        self.buffer@
    }

    /// The packets the iterator has still to yield.
    pub closed spec fn remaining(&self) -> Seq<Seq<u8>> {
        self.buffer@.slots.subrange(self.index as int, self.buffer@.count as int)
    }

    /// The next packet, or `None` once every packet was yielded.
    pub fn next(&mut self) -> (r: Option<&'a [u8]>)
        requires
            old(self).wf(),
        ensures
            final(self).wf(),
            final(self).buffer_view() == old(self).buffer_view(),
            match r {
                Some(p) => old(self).remaining().len() > 0 && p@ == old(self).remaining()[0]
                    && final(self).remaining() == old(self).remaining().drop_first(),
                None => old(self).remaining().len() == 0 && final(self).remaining().len() == 0,
            },
    {
        let buffer: &'a PacketBuffer = self.buffer;
        proof {
            buffer.lemma_view_shape();
        }
        if self.index < buffer.count {
            let i = self.index;
            self.index = self.index + 1;
            let row: &'a [u8] = buffer.packets[i].as_slice();
            let (p, _) = row.split_at(buffer.lengths[i]);
            assert(p@ =~= buffer@.slots[i as int]);
            assert(old(self).remaining().drop_first() =~= self.remaining());
            Some(p)
        } else {
            None
        }
    }
}

} // verus!
