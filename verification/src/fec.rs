//! The forward-error-correction boundary: the block digests, ordered by id,
//! are concatenated into one buffer and handed to a fountain-code encoder;
//! an arbitrary subset of the resulting packets may later be fed back to a
//! decoder, which either recovers the buffer or reports failure.

use vstd::prelude::*;
use crate::block::Block;
use crate::dag::ToyDag;
use raptorq::{Decoder, Encoder, EncodingPacket, ObjectTransmissionInformation};

verus! {

#[verifier::external_type_specification]
#[verifier::external_body]
pub struct ExEncoder(Encoder);

#[verifier::external_type_specification]
#[verifier::external_body]
pub struct ExDecoder(Decoder);

#[verifier::external_type_specification]
#[verifier::external_body]
pub struct ExEncodingPacket(EncodingPacket);

/// The transmission parameters of one encoding, as plain values.
#[derive(Clone, Copy, PartialEq, Eq, Structural, Debug)]
pub struct FecConfig {
    /// Total length in bytes of the encoded buffer.
    pub transfer_length: u64,
    /// Size in bytes of one encoding symbol.
    pub symbol_size: u16,
    /// Number of source blocks the buffer is split into.
    pub source_blocks: u8,
    /// Number of sub-blocks per source block.
    pub sub_blocks: u16,
    /// Symbol alignment in bytes.
    pub alignment: u8,
}

/// Integer division rounding up.
pub open spec fn div_ceil(n: int, d: int) -> int
    recommends
        d >= 1,
{
    if n % d == 0 {
        n / d
    } else {
        n / d + 1
    }
}

impl FecConfig {
    /// The parameter ranges within which the decoder can be built and run
    /// without failing: every count is non-zero (the decoder divides by the
    /// symbol size, the block count and the sub-block count), the symbol
    /// size is a multiple of the alignment, the transfer length is within
    /// the format's bound, and no source block holds more than 56403
    /// symbols — the checks of raptorq's
    /// `ObjectTransmissionInformation::new` plus the non-zero sub-block
    /// count its sub-block partition divides by.
    pub open spec fn valid(self) -> bool {
        &&& self.symbol_size >= 1
        &&& self.source_blocks >= 1
        &&& self.sub_blocks >= 1
        &&& self.alignment >= 1
        &&& self.symbol_size as int % self.alignment as int == 0
        &&& self.transfer_length <= 942574504275
        &&& div_ceil(
            div_ceil(self.transfer_length as int, self.symbol_size as int),
            self.source_blocks as int,
        ) <= 56403
    }

    /// Runtime check of `valid`.
    pub fn check_valid(&self) -> (r: bool)
        ensures
            r == self.valid(),
    {
        if !(self.symbol_size >= 1 && self.source_blocks >= 1 && self.sub_blocks >= 1
            && self.alignment >= 1) {
            return false;
        }
        if self.symbol_size % (self.alignment as u16) != 0 {
            return false;
        }
        if self.transfer_length > 942574504275 {
            return false;
        }
        let t = self.transfer_length;
        let ss = self.symbol_size as u64;
        let c1 = if t % ss == 0 {
            t / ss
        } else {
            t / ss + 1
        };
        let z = self.source_blocks as u64;
        let c2 = if c1 % z == 0 {
            c1 / z
        } else {
            c1 / z + 1
        };
        c2 <= 56403
    }
}

/// The encoder built over a buffer with a given maximum packet size; the
/// construction is deterministic (raptorq's `Encoder::with_defaults`).
pub uninterp spec fn encoder_of(data: Seq<u8>, mtu: u16) -> Encoder;

/// An encoder's transmission parameters, as plain values (raptorq's
/// `Encoder::get_config`, read field by field).
pub uninterp spec fn encoder_cfg(e: Encoder) -> FecConfig;

/// The packets an encoder emits for a given repair count (raptorq's
/// `Encoder::get_encoded_packets`; deterministic, RFC 6330 uses no
/// randomness).
pub uninterp spec fn packets_of(e: Encoder, repair: u32) -> Seq<EncodingPacket>;

/// The source-block index carried in a packet's payload id; a function of
/// the packet alone (raptorq's `PayloadId::source_block_number`).
pub uninterp spec fn packet_block(p: EncodingPacket) -> nat;

/// A packet's payload length in bytes (raptorq's `EncodingPacket::data`).
pub uninterp spec fn packet_payload_len(p: EncodingPacket) -> nat;

/// How many source blocks a decoder was created for; fixed at construction
/// (raptorq's `Decoder::new` builds one block decoder per source block).
pub uninterp spec fn decoder_blocks(d: Decoder) -> nat;

/// The symbol size a decoder was created with; every packet fed to it must
/// carry a payload of exactly this many bytes.
pub uninterp spec fn decoder_symbol_size(d: Decoder) -> nat;

/// The transfer length a decoder was created with: the byte length of the
/// buffer it reconstructs.
pub uninterp spec fn decoder_transfer_len(d: Decoder) -> nat;

/// Relies on raptorq's `Encoder::with_defaults`: builds an encoder over the
/// buffer.  Its derived parameters satisfy the decoder's bounds and carry
/// the buffer's length as the transfer length; under the requires they stay
/// inside every assert on the construction path: with mtu >= 64 the symbol
/// size is at least 64 and 8-aligned, so at most 56403 symbols fit a block
/// and the length bound keeps the block count within the format's 255
/// (56403 symbols x 255 blocks x 64 bytes).
#[verifier::external_body]
fn encoder_new(data: &Vec<u8>, mtu: u16) -> (r: Encoder)
    requires
        1 <= data@.len() <= 920496960,
        mtu >= 64,
    ensures
        r == encoder_of(data@, mtu),
        encoder_cfg(r).valid(),
        encoder_cfg(r).transfer_length as int == data@.len() as int,
{
    Encoder::with_defaults(data.as_slice(), mtu)
}

/// Relies on raptorq's `Encoder::get_config`: the transmission parameters of
/// this encoding, read back field by field.
#[verifier::external_body]
fn encoder_config(e: &Encoder) -> (r: FecConfig)
    ensures
        r == encoder_cfg(*e),
{
    let c = e.get_config();
    FecConfig {
        transfer_length: c.transfer_length(),
        symbol_size: c.symbol_size(),
        source_blocks: c.source_blocks(),
        sub_blocks: c.sub_blocks(),
        alignment: c.symbol_alignment(),
    }
}

/// Relies on raptorq's `Encoder::get_encoded_packets`: the source packets of
/// every block followed by the requested number of repair packets.  A
/// packet's 24-bit encoding-symbol id is the symbol's index among at most
/// 56403 source symbols plus the repair index, so the repair count must
/// stay below 2^24 - 56403.
#[verifier::external_body]
fn encoder_packets(e: &Encoder, repair: u32) -> (r: Vec<EncodingPacket>)
    requires
        repair < 16720813,
    ensures
        r@ == packets_of(*e, repair),
{
    e.get_encoded_packets(repair)
}

/// Relies on raptorq's `EncodingPacket::payload_id` and
/// `PayloadId::source_block_number`: the block index this packet belongs to.
#[verifier::external_body]
fn packet_source_block(p: &EncodingPacket) -> (r: u8)
    ensures
        r as nat == packet_block(*p),
{
    p.payload_id().source_block_number()
}

/// Relies on raptorq's `EncodingPacket::data`: the payload length in bytes.
#[verifier::external_body]
fn packet_payload_size(p: &EncodingPacket) -> (r: usize)
    ensures
        r as nat == packet_payload_len(*p),
{
    p.data().len()
}

/// Relies on raptorq's `ObjectTransmissionInformation::new` and
/// `Decoder::new`: converts the plain configuration and builds a decoder
/// with one block decoder per source block (the partition of Z blocks
/// yields exactly Z decoders), carrying the configuration's symbol size and
/// transfer length.  `valid` excludes the inputs on which the constructors
/// assert or divide by zero.
#[verifier::external_body]
fn decoder_new(c: &FecConfig) -> (d: Decoder)
    requires
        c.valid(),
    ensures
        decoder_blocks(d) == c.source_blocks as nat,
        decoder_symbol_size(d) == c.symbol_size as nat,
        decoder_transfer_len(d) == c.transfer_length as nat,
{
    let config = ObjectTransmissionInformation::new(
        c.transfer_length,
        c.symbol_size,
        c.source_blocks,
        c.sub_blocks,
        c.alignment,
    );
    Decoder::new(config)
}

/// Relies on raptorq's `Decoder::decode`: feeds one packet; returns the
/// recovered buffer once every source block is decodable, `None` before
/// that.  The packet's block index must be one the decoder was built for
/// and its payload must be exactly one symbol, else the block decoder
/// indexes or copies out of bounds.  On success the result is the block
/// buffers concatenated and truncated to the transfer length, which they
/// always reach.
#[verifier::external_body]
fn decoder_decode(d: &mut Decoder, p: EncodingPacket) -> (r: Option<Vec<u8>>)
    requires
        packet_block(p) < decoder_blocks(*old(d)),
        packet_payload_len(p) == decoder_symbol_size(*old(d)),
    ensures
        decoder_blocks(*final(d)) == decoder_blocks(*old(d)),
        decoder_symbol_size(*final(d)) == decoder_symbol_size(*old(d)),
        decoder_transfer_len(*final(d)) == decoder_transfer_len(*old(d)),
        r matches Some(out) ==> out@.len() == decoder_transfer_len(*old(d)),
{
    d.decode(p)
}

/// The concatenation of all block digests in id order, 32 bytes per block.
pub open spec fn digests_of(blocks: Seq<Block>) -> Seq<u8>
    decreases blocks.len(),
{
    if blocks.len() == 0 {
        Seq::empty()
    } else {
        digests_of(blocks.drop_last()) + blocks.last().hash@
    }
}

/// Builds the buffer the transport encodes: every block's digest, ordered by
/// block id, concatenated without separators.
pub fn digest_buffer(d: &ToyDag) -> (r: Vec<u8>)
    requires
        d.wf(),
    ensures
        r@ == digests_of(d.blocks@),
{
    let mut out: Vec<u8> = Vec::new();
    let mut i: usize = 0;
    let n = d.blocks.len();
    while i < n
        invariant
            d.wf(),
            n == d.blocks@.len(),
            i <= n,
            out@ == digests_of(d.blocks@.take(i as int)),
        decreases n - i,
    {
        let mut b: usize = 0;
        while b < 32
            invariant
                d.wf(),
                n == d.blocks@.len(),
                i < n,
                b <= 32,
                out@ == digests_of(d.blocks@.take(i as int)) + d.blocks@[i as int].hash@.take(
                    b as int,
                ),
            decreases 32 - b,
        {
            let byte = d.blocks[i].hash[b];
            out.push(byte);
            proof {
                assert(d.blocks@[i as int].hash@.take(b + 1) =~= d.blocks@[i as int].hash@.take(
                    b as int,
                ).push(byte));
                assert(out@ =~= digests_of(d.blocks@.take(i as int)) + d.blocks@[i as int].hash@
                    .take(b + 1));
            }
            b += 1;
        }
        proof {
            let pre = d.blocks@.take(i as int);
            assert(d.blocks@.take(i + 1).drop_last() =~= pre);
            assert(d.blocks@.take(i + 1).last() == d.blocks@[i as int]);
            assert(d.blocks@[i as int].hash@.take(32) =~= d.blocks@[i as int].hash@);
            assert(out@ =~= digests_of(d.blocks@.take(i + 1)));
        }
        i += 1;
    }
    proof {
        assert(d.blocks@.take(n as int) =~= d.blocks@);
    }
    out
}

/// Encodes a buffer into packets with the default transmission parameters,
/// the given maximum packet size and the given number of repair packets per
/// block.  Returns the encoding's configuration (valid, and carrying the
/// buffer's length) together with its packet list, or `None` when the
/// buffer, packet size or repair count is outside the supported range.
pub fn encode_digests(data: &Vec<u8>, mtu: u16, repair: u32) -> (r: Option<
    (FecConfig, Vec<EncodingPacket>),
>)
    ensures
        r is Some <==> (1 <= data@.len() <= 920496960 && mtu >= 64 && repair < 16720813),
        r matches Some(v) ==> {
            &&& v.0 == encoder_cfg(encoder_of(data@, mtu))
            &&& v.0.valid()
            &&& v.0.transfer_length as int == data@.len() as int
            &&& v.1@ == packets_of(encoder_of(data@, mtu), repair)
        },
{
    if data.len() >= 1 && data.len() <= 920496960 && mtu >= 64 && repair < 16720813 {
        let enc = encoder_new(data, mtu);
        let config = encoder_config(&enc);
        let packets = encoder_packets(&enc, repair);
        Some((config, packets))
    } else {
        None
    }
}

/// Feeds the given packets, in order, to a fresh decoder for `config` and
/// returns the first successful reconstruction, whose length is the
/// configured transfer length; `None` when the packets do not suffice or
/// the configuration is out of range.  A packet whose block index or
/// payload size does not fit the configuration (none from the matching
/// encoding is such) is skipped rather than fed to the decoder.
pub fn decode_digests(config: &FecConfig, packets: Vec<EncodingPacket>) -> (r: Option<Vec<u8>>)
    ensures
        !config.valid() ==> r is None,
        r matches Some(out) ==> out@.len() == config.transfer_length as int,
{
    if !config.check_valid() {
        return None;
    }
    let nb = config.source_blocks;
    let symbol: usize = config.symbol_size as usize;
    let mut dec = decoder_new(config);
    let mut rest = packets;
    while rest.len() > 0
        invariant
            config.valid(),
            decoder_blocks(dec) == config.source_blocks as nat,
            decoder_symbol_size(dec) == config.symbol_size as nat,
            decoder_transfer_len(dec) == config.transfer_length as nat,
            nb == config.source_blocks,
            symbol == config.symbol_size as int,
        decreases rest@.len(),
    {
        let p = rest.remove(0);
        if packet_source_block(&p) < nb && packet_payload_size(&p) == symbol {
            let out = decoder_decode(&mut dec, p);
            if let Some(data) = out {
                return Some(data);
            }
        }
    }
    None
}

} // verus!
