use vstd::prelude::*;
use vstd::slice::{slice_subrange, slice_to_vec};
use crate::errors::Error;
use crate::packets::packet_header::{PacketHeader, PacketHeaderView, spec_payload_length};
use crate::protocol::readable::Readable;
use crate::protocol::writable::{Writable, write_matches};

verus! {

/// Splits the datagrams a socket receives into packets.
#[derive(Debug, Clone, Default)]
pub struct PacketCodec;

/// A packet taken from a datagram: its header and the bytes of its data.
#[derive(Debug, Clone, Eq, PartialEq, Hash)]
pub struct DecodedPacket {
    pub packet_header: PacketHeader,
    pub data: Vec<u8>,
}

/// What a decoded packet holds.
pub struct DecodedPacketView {
    pub packet_header: PacketHeaderView,
    pub data: Seq<u8>,
}

impl View for DecodedPacket {
    type V = DecodedPacketView;

    open spec fn view(&self) -> DecodedPacketView {
        DecodedPacketView { packet_header: self.packet_header@, data: self.data@ }
    }
}

/// The packets `front` in front of what decoding the rest gives.
pub open spec fn spec_prepend(
    front: Seq<DecodedPacketView>,
    rest: Option<Result<Seq<DecodedPacketView>, Error>>,
) -> Option<Result<Seq<DecodedPacketView>, Error>> {
    match rest {
        None => None,
        Some(Err(e)) => Some(Err(e)),
        Some(Ok(packets)) => Some(Ok(front + packets)),
    }
}

/// The packets a datagram holds: each a header followed by its data, which runs to the offset
/// (from the start of what is left of the datagram) that a long header's payload length gives,
/// or else to the end of the datagram; the next packet starts where the data ends. The error is
/// the first one reading a header gives. `None` stands for an offset before the end of the header
/// or past the end of the datagram, which cannot be cut out of it.
pub open spec fn spec_decode_datagram(buf: Seq<u8>) -> Option<Result<Seq<DecodedPacketView>, Error>>
    decreases buf.len(),
{
    if buf.len() == 0 {
        Some(Ok(Seq::empty()))
    } else {
        match PacketHeader::spec_read(buf) {
            Err(e) => Some(Err(e)),
            Ok((header, start)) => {
                let end: int = match spec_payload_length(header) {
                    Some(length) => length as int,
                    None => buf.len() as int,
                };
                if end < start || end > buf.len() {
                    None
                } else {
                    proof {
                        PacketHeader::lemma_read_bounds(buf);
                    }
                    let packet = DecodedPacketView { packet_header: header, data: buf.subrange(start as int, end) };
                    spec_prepend(seq![packet], spec_decode_datagram(buf.subrange(end, buf.len() as int)))
                }
            },
        }
    }
}

/// The views of decoded packets.
pub open spec fn decoded_views(packets: Seq<DecodedPacket>) -> Seq<DecodedPacketView> {
    packets.map_values(|p: DecodedPacket| p@)
}

proof fn lemma_prepend_twice(
    a: Seq<DecodedPacketView>,
    b: Seq<DecodedPacketView>,
    rest: Option<Result<Seq<DecodedPacketView>, Error>>,
)
    ensures
        spec_prepend(a, spec_prepend(b, rest)) == spec_prepend(a + b, rest),
{
    if let Some(Ok(packets)) = rest {
        assert(a + (b + packets) =~= (a + b) + packets);
    }
}

impl PacketCodec {
    /// Whether every payload length in the datagram, up to the first header that cannot be read,
    /// ends within what is left of the datagram and not before the end of its header, as
    /// cutting the packets out of the datagram needs.
    #[verifier::rlimit(30)]
    pub fn payload_lengths_fit(&self, buf: &[u8]) -> (r: bool)
        ensures
            r == spec_decode_datagram(buf@) is Some,
    {
        let mut position: usize = 0;
        let ghost whole = buf@;
        proof {
            assert(whole.subrange(0, whole.len() as int) =~= whole);
        }
        while position < buf.len()
            invariant
                whole == buf@,
                position <= buf.len(),
                spec_decode_datagram(whole) is Some
                    <==> spec_decode_datagram(whole.subrange(position as int, whole.len() as int)) is Some,
            decreases buf.len() - position,
        {
            let remaining = slice_subrange(buf, position, buf.len());
            let ghost rem = remaining@;
            proof {
                PacketHeader::lemma_read_bounds(rem);
                assert(rem =~= whole.subrange(position as int, whole.len() as int));
            }
            let (packet_header, data_start_index) = match PacketHeader::read(remaining) {
                Ok(read) => read,
                Err(_) => {
                    return true;
                },
            };
            let data_end_index: usize = match packet_header.payload_length() {
                Some(length) => {
                    if length > remaining.len() as u64 {
                        return false;
                    }
                    length as usize
                },
                None => remaining.len(),
            };
            if data_end_index < data_start_index {
                return false;
            }
            proof {
                assert(rem.subrange(data_end_index as int, rem.len() as int)
                    =~= whole.subrange(position + data_end_index, whole.len() as int));
            }
            position = position + data_end_index;
        }
        proof {
            assert(whole.subrange(position as int, whole.len() as int) =~= Seq::<u8>::empty());
        }
        true
    }

    /// Splits a datagram into its packets, as `spec_decode_datagram` says. Every payload length
    /// must fit (see `payload_lengths_fit`): the packets are cut out of the datagram by them.
    #[verifier::rlimit(30)]
    pub fn decode(&self, buf: &[u8]) -> (r: Result<Vec<DecodedPacket>, Error>)
        requires
            spec_decode_datagram(buf@) is Some,
        ensures
            match spec_decode_datagram(buf@) {
                None => false,
                Some(Err(e)) => r == Err::<Vec<DecodedPacket>, Error>(e),
                Some(Ok(packets)) => r matches Ok(v) && decoded_views(v@) == packets,
            },
    {
        let mut packets: Vec<DecodedPacket> = Vec::new();
        let mut position: usize = 0;
        let ghost whole = buf@;
        proof {
            assert(whole.subrange(0, whole.len() as int) =~= whole);
            assert(decoded_views(packets@) =~= Seq::<DecodedPacketView>::empty());
            if let Some(Ok(rest)) = spec_decode_datagram(whole) {
                assert(decoded_views(packets@) + rest =~= rest);
            }
        }
        while position < buf.len()
            invariant
                whole == buf@,
                position <= buf.len(),
                spec_decode_datagram(whole) is Some,
                spec_decode_datagram(whole) == spec_prepend(
                    decoded_views(packets@),
                    spec_decode_datagram(whole.subrange(position as int, whole.len() as int)),
                ),
            decreases buf.len() - position,
        {
            let remaining = slice_subrange(buf, position, buf.len());
            let ghost rem = remaining@;
            proof {
                PacketHeader::lemma_read_bounds(rem);
                assert(rem =~= whole.subrange(position as int, whole.len() as int));
            }
            let (packet_header, data_start_index) = match PacketHeader::read(remaining) {
                Ok(read) => read,
                Err(e) => {
                    return Err(e);
                },
            };
            proof {
                assert(spec_decode_datagram(rem) is Some) by {
                    if spec_decode_datagram(rem) is None {
                        assert(spec_prepend(
                            decoded_views(packets@),
                            spec_decode_datagram(whole.subrange(position as int, whole.len() as int)),
                        ) is None);
                    }
                }
                let end: int = match spec_payload_length(packet_header@) {
                    Some(length) => length as int,
                    None => rem.len() as int,
                };
                assert(data_start_index <= end <= rem.len());
            }
            let data_end_index: usize = match packet_header.payload_length() {
                Some(length) => length as usize,
                None => remaining.len(),
            };
            let data = slice_to_vec(slice_subrange(remaining, data_start_index, data_end_index));
            let ghost old_packets = packets@;
            let packet = DecodedPacket { packet_header, data };
            let ghost packet_view = packet@;
            proof {
                assert(rem.subrange(data_end_index as int, rem.len() as int)
                    =~= whole.subrange(position + data_end_index, whole.len() as int));
                assert(spec_decode_datagram(rem) == spec_prepend(
                    seq![packet_view],
                    spec_decode_datagram(rem.subrange(data_end_index as int, rem.len() as int)),
                ));
                lemma_prepend_twice(
                    decoded_views(old_packets),
                    seq![packet_view],
                    spec_decode_datagram(rem.subrange(data_end_index as int, rem.len() as int)),
                );
            }
            packets.push(packet);
            proof {
                assert(decoded_views(packets@) =~= decoded_views(old_packets) + seq![packet_view]);
            }
            position = position + data_end_index;
        }
        proof {
            assert(whole.subrange(position as int, whole.len() as int) =~= Seq::<u8>::empty());
            assert(decoded_views(packets@) + Seq::<DecodedPacketView>::empty() =~= decoded_views(packets@));
        }
        Ok(packets)
    }

    /// Appends a packet to an outgoing datagram: its header, then its data.
    pub fn encode(&self, packet_header: &PacketHeader, data: &[u8], buf: &mut Vec<u8>) -> (r: Result<(), Error>)
        ensures
            write_matches(
                match PacketHeader::spec_write(packet_header@) {
                    Ok(header) => Ok::<Seq<u8>, Error>(header + data@),
                    Err(e) => Err(e),
                },
                old(buf)@,
                final(buf)@,
                r,
            ),
    {
        let ghost start = buf@;
        match packet_header.write(buf) {
            Ok(()) => {},
            Err(e) => {
                return Err(e);
            },
        }
        let ghost front = buf@;
        buf.extend_from_slice(data);
        proof {
            assert(buf@ =~= start + (PacketHeader::spec_write(packet_header@)->Ok_0 + data@));
        }
        Ok(())
    }
}

/// Decoding a datagram whose first header reads back and whose first packet fits in it takes
/// that packet off its front.
pub(crate) proof fn lemma_decode_front(buf: Seq<u8>, header: PacketHeaderView, start: nat, end: int)
    requires
        buf.len() > 0,
        PacketHeader::spec_read(buf) == Ok::<(PacketHeaderView, nat), Error>((header, start)),
        end == match spec_payload_length(header) {
            Some(length) => length as int,
            None => buf.len() as int,
        },
        start <= end <= buf.len(),
    ensures
        spec_decode_datagram(buf) == spec_prepend(
            seq![DecodedPacketView { packet_header: header, data: buf.subrange(start as int, end) }],
            spec_decode_datagram(buf.subrange(end, buf.len() as int)),
        ),
{
}

} // verus!
