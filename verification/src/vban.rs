//! The VBAN audio packet: a 28-byte header followed by the PCM payload.
use vstd::prelude::*;
use vstd::string::StringSliceAdditionalSpecFns;

verus! {

/// The sample rates that VBAN can announce, in the order of their index
/// in the header's sample-rate field.
pub const VBAN_SR: [u32; 21] = [
    6000, 12000, 24000, 48000, 96000, 192000, 384000, 8000, 16000, 32000, 64000, 128000,
    256000, 512000, 11025, 22050, 44100, 88200, 176400, 352800, 705600,
];

/// Index used for a rate that the table does not hold: 48 kHz.
pub const DEFAULT_SR_INDEX: u8 = 3;

/// Length of the VBAN header that precedes the payload.
pub const HEADER_LEN: usize = 28;

/// Longest stream name that is copied into the 16-byte name field; the
/// last byte of the field always stays zero.
pub const MAX_NAME_LEN: usize = 15;

/// `i` is the first position of `rate` in the sample-rate table.
pub open spec fn is_first_index(rate: u32, i: int) -> bool {
    &&& 0 <= i < VBAN_SR@.len()
    &&& VBAN_SR@[i] == rate
    &&& forall|j: int| 0 <= j < i ==> VBAN_SR@[j] != rate
}

/// The sample-rate index that announces `rate`: its first position in the
/// table, or `DEFAULT_SR_INDEX` when the table does not hold it.
pub open spec fn sr_index_of(rate: u32) -> int {
    if exists|i: int| is_first_index(rate, i) {
        choose|i: int| is_first_index(rate, i)
    } else {
        DEFAULT_SR_INDEX as int
    }
}

/// Looks `rate` up in the VBAN sample-rate table.
pub fn get_sr_index(rate: u32) -> (idx: u8)
    ensures
        idx as int == sr_index_of(rate),
        VBAN_SR@.contains(rate) ==> VBAN_SR@[idx as int] == rate,
        !VBAN_SR@.contains(rate) ==> idx == DEFAULT_SR_INDEX,
        idx < 21,
{
    let mut i: usize = 0;
    while i < 21
        invariant
            i <= 21,
            forall|j: int| 0 <= j < i ==> VBAN_SR@[j] != rate,
        decreases 21 - i,
    {
        if VBAN_SR[i] == rate {
            assert(is_first_index(rate, i as int));
            proof {
                let c = choose|k: int| is_first_index(rate, k);
                assert(is_first_index(rate, c));
                assert(c == i as int);
            }
            return i as u8;
        }
        i = i + 1;
    }
    proof {
        assert(!(exists|k: int| is_first_index(rate, k)));
        assert(!VBAN_SR@.contains(rate)) by {
            if VBAN_SR@.contains(rate) {
                let k = choose|k: int| 0 <= k < VBAN_SR@.len() && VBAN_SR@[k] == rate;
                assert(VBAN_SR@[k] != rate);
            }
        }
    }
    DEFAULT_SR_INDEX
}

/// The 16-byte name field: at most `MAX_NAME_LEN` bytes of the name,
/// padded with zeros.
pub open spec fn name_field(name: Seq<u8>) -> Seq<u8> {
    let k = if name.len() < MAX_NAME_LEN { name.len() } else { MAX_NAME_LEN as nat };
    name.take(k as int) + Seq::new((16 - k) as nat, |i: int| 0u8)
}

/// A 32-bit counter in little-endian byte order.
pub open spec fn u32_le_bytes(v: u32) -> Seq<u8> {
    seq![
        (v % 256) as u8,
        (v / 256 % 256) as u8,
        (v / 65536 % 256) as u8,
        (v / 16777216) as u8,
    ]
}

/// The 28-byte VBAN header: the magic "VBAN", the 5-bit sample-rate index,
/// samples per frame minus one, channels minus one (both in one byte,
/// wrapping), the data format (PCM, 16-bit), the stream name field and the
/// frame counter.
pub open spec fn vban_header(name: Seq<u8>, sr: u8, ch: u8, fc: u32, ns: u16) -> Seq<u8> {
    seq![
        86u8,
        66u8,
        65u8,
        78u8,
        (sr % 32) as u8,
        ((ns % 256 + 255) % 256) as u8,
        ((ch + 255) % 256) as u8,
        1u8,
    ] + name_field(name) + u32_le_bytes(fc)
}

/// A whole VBAN packet: header, then the payload unchanged.
pub open spec fn vban_packet(name: Seq<u8>, sr: u8, ch: u8, fc: u32, ns: u16, data: Seq<u8>) -> Seq<u8> {
    vban_header(name, sr, ch, fc, ns) + data
}

/// Law: the sample-rate table holds no rate twice, so every rate in it is
/// announced by its own position.
pub proof fn law_sr_index_of_table_rate(i: int)
    requires
        0 <= i < VBAN_SR@.len(),
    ensures
        sr_index_of(VBAN_SR@[i]) == i,
{
    let rate = VBAN_SR@[i];
    assert forall|j: int| 0 <= j < i implies VBAN_SR@[j] != rate by {
        assert(VBAN_SR@[j] != VBAN_SR@[i]);
    }
    assert(is_first_index(rate, i));
    let c = choose|k: int| is_first_index(rate, k);
    assert(is_first_index(rate, c));
    if c < i {
        assert(VBAN_SR@[c] != VBAN_SR@[i]);
    }
    if c > i {
        assert(VBAN_SR@[i] != rate);
    }
}

/// Law (table layout): the sample-rate table is three doubling series of
/// seven rates each: from 6000 Hz (indices 0 to 6), from 8000 Hz (7 to 13)
/// and from 11025 Hz (14 to 20).
pub proof fn law_sr_table_series(k: int)
    requires
        0 <= k < 7,
    ensures
        VBAN_SR@.len() == 21,
        VBAN_SR@[0] == 6000,
        VBAN_SR@[7] == 8000,
        VBAN_SR@[14] == 11025,
        k < 6 ==> VBAN_SR@[k + 1] == 2 * VBAN_SR@[k],
        k < 6 ==> VBAN_SR@[7 + k + 1] == 2 * VBAN_SR@[7 + k],
        k < 6 ==> VBAN_SR@[14 + k + 1] == 2 * VBAN_SR@[14 + k],
{
}

/// Law: every sample-rate index fits the header's 5-bit field unchanged.
pub proof fn law_sr_index_fits_field(rate: u32)
    ensures
        0 <= sr_index_of(rate) < 21,
        (sr_index_of(rate) as u8) % 32 == sr_index_of(rate),
{
    if exists|i: int| is_first_index(rate, i) {
        let c = choose|i: int| is_first_index(rate, i);
        assert(is_first_index(rate, c));
    }
}

/// Law: the frame counter is read back from its four little-endian bytes.
pub proof fn law_u32_le_bytes_decode(v: u32)
    ensures
        u32_le_bytes(v).len() == 4,
        u32_le_bytes(v)[0] + 256 * u32_le_bytes(v)[1] + 65536 * u32_le_bytes(v)[2] + 16777216 * u32_le_bytes(v)[3] == v,
{
}

/// Law (packet layout): a packet is 28 header bytes and then the payload
/// unchanged; the header starts with "VBAN", carries the 5-bit sample-rate
/// index, the frame and channel counts minus one, the PCM 16-bit format,
/// a zero-terminated name field of 16 bytes and the frame counter.
pub proof fn law_packet_layout(name: Seq<u8>, sr: u8, ch: u8, fc: u32, ns: u16, data: Seq<u8>)
    ensures
        ({
            let p = vban_packet(name, sr, ch, fc, ns, data);
            let k = if name.len() < MAX_NAME_LEN { name.len() } else { MAX_NAME_LEN as nat };
            &&& p.len() == HEADER_LEN + data.len()
            &&& p.take(4) == seq![86u8, 66u8, 65u8, 78u8]
            &&& p[4] == sr % 32
            &&& (p[5] + 1) % 256 == ns % 256
            &&& (p[6] + 1) % 256 == ch
            &&& p[7] == 1
            &&& p.subrange(8, 8 + k as int) == name.take(k as int)
            &&& forall|i: int| 8 + k <= i < 24 ==> p[i] == 0
            &&& p.subrange(24, 28) == u32_le_bytes(fc)
            &&& p.skip(HEADER_LEN as int) == data
        }),
{
    let p = vban_packet(name, sr, ch, fc, ns, data);
    let k = if name.len() < MAX_NAME_LEN { name.len() } else { MAX_NAME_LEN as nat };
    let h = vban_header(name, sr, ch, fc, ns);
    assert(h.len() == 28);
    assert(p.take(4) == seq![86u8, 66u8, 65u8, 78u8]);
    assert(p.subrange(8, 8 + k as int) == name.take(k as int));
    assert(p.subrange(24, 28) == u32_le_bytes(fc));
    assert(p.skip(HEADER_LEN as int) == data);
}

/// Law (decoding): a receiver reads every input back from a packet whose
/// fields are in range (a 5-bit sample-rate index, 1 to 256 frames, at least
/// one channel, a name of at most 15 bytes none of which is zero).
pub proof fn law_packet_decode(name: Seq<u8>, sr: u8, ch: u8, fc: u32, ns: u16, data: Seq<u8>)
    requires
        sr < 32,
        1 <= ns <= 256,
        ch >= 1,
        name.len() <= MAX_NAME_LEN,
        forall|i: int| 0 <= i < name.len() ==> name[i] != 0,
    ensures
        ({
            let p = vban_packet(name, sr, ch, fc, ns, data);
            &&& p[4] == sr
            &&& p[5] + 1 == ns
            &&& p[6] + 1 == ch
            &&& p.subrange(8, 8 + name.len() as int) == name
            &&& p[8 + name.len() as int] == 0
            &&& p[24] + 256 * p[25] + 65536 * p[26] + 16777216 * p[27] == fc
            &&& p.skip(HEADER_LEN as int) == data
        }),
{
    law_packet_layout(name, sr, ch, fc, ns, data);
    law_u32_le_bytes_decode(fc);
    let p = vban_packet(name, sr, ch, fc, ns, data);
    assert(p.subrange(24, 28) == u32_le_bytes(fc));
    assert(p[24] == u32_le_bytes(fc)[0]);
    assert(p[25] == u32_le_bytes(fc)[1]);
    assert(p[26] == u32_le_bytes(fc)[2]);
    assert(p[27] == u32_le_bytes(fc)[3]);
    assert(name.take(name.len() as int) == name);
    if name.len() < 15 {
        assert(p[8 + name.len() as int] == 0);
    } else {
        assert(p[23] == 0);
    }
}

/// Law: the header does not depend on the payload; a packet for `a + b` is
/// the packet for `a` followed by `b`.
pub proof fn law_packet_payload_split(name: Seq<u8>, sr: u8, ch: u8, fc: u32, ns: u16, a: Seq<u8>, b: Seq<u8>)
    ensures
        vban_packet(name, sr, ch, fc, ns, a + b) == vban_packet(name, sr, ch, fc, ns, a) + b,
{
    assert(vban_packet(name, sr, ch, fc, ns, a + b) == vban_packet(name, sr, ch, fc, ns, a) + b);
}

/// Law: packets that differ only in their frame counter differ exactly in
/// the counter bytes 24 to 27.
pub proof fn law_packet_counter_only(name: Seq<u8>, sr: u8, ch: u8, f1: u32, f2: u32, ns: u16, data: Seq<u8>)
    requires
        f1 != f2,
    ensures
        ({
            let p = vban_packet(name, sr, ch, f1, ns, data);
            let q = vban_packet(name, sr, ch, f2, ns, data);
            &&& p.len() == q.len()
            &&& forall|i: int| 0 <= i < p.len() && !(24 <= i < 28) ==> p[i] == q[i]
            &&& p.subrange(24, 28) != q.subrange(24, 28)
        }),
{
    law_packet_layout(name, sr, ch, f1, ns, data);
    law_packet_layout(name, sr, ch, f2, ns, data);
    law_u32_le_bytes_decode(f1);
    law_u32_le_bytes_decode(f2);
    let p = vban_packet(name, sr, ch, f1, ns, data);
    let q = vban_packet(name, sr, ch, f2, ns, data);
    if p.subrange(24, 28) == q.subrange(24, 28) {
        assert(u32_le_bytes(f1) == u32_le_bytes(f2));
        assert(u32_le_bytes(f1)[0] == u32_le_bytes(f2)[0]);
        assert(u32_le_bytes(f1)[1] == u32_le_bytes(f2)[1]);
        assert(u32_le_bytes(f1)[2] == u32_le_bytes(f2)[2]);
        assert(u32_le_bytes(f1)[3] == u32_le_bytes(f2)[3]);
    }
}

/// Builds the VBAN packet for one frame of PCM data.
pub fn build_packet(name: &str, sr: u8, ch: u8, fc: u32, ns: u16, data: &[u8]) -> (p: Vec<u8>)
    requires
        data@.len() + HEADER_LEN <= usize::MAX,
    ensures
        p@ == vban_packet(name.spec_bytes(), sr, ch, fc, ns, data@),
        p@.len() == HEADER_LEN + data@.len(),
{
    let n = name.as_bytes();
    let mut p: Vec<u8> = Vec::new();
    p.push(0x56u8); // 'V'
    p.push(0x42u8); // 'B'
    p.push(0x41u8); // 'A'
    p.push(0x4Eu8); // 'N'
    assert(sr & 0x1F == sr % 32) by (bit_vector);
    p.push(sr & 0x1F);
    let ns_low: u8 = (ns % 256) as u8;
    p.push(ns_low.wrapping_sub(1));
    p.push(ch.wrapping_sub(1));
    p.push(0x01);
    let ghost fixed = p@;
    assert(fixed == seq![
        86u8,
        66u8,
        65u8,
        78u8,
        (sr % 32) as u8,
        ((ns % 256 + 255) % 256) as u8,
        ((ch + 255) % 256) as u8,
        1u8,
    ]);
    let len = if n.len() < MAX_NAME_LEN { n.len() } else { MAX_NAME_LEN };
    let mut i: usize = 0;
    while i < len
        invariant
            i <= len,
            len <= n@.len(),
            len <= MAX_NAME_LEN,
            p@ == fixed + n@.take(i as int),
        decreases len - i,
    {
        p.push(n[i]);
        i = i + 1;
        assert(n@.take(i as int) == n@.take(i - 1) .push(n@[i - 1]));
    }
    let mut j: usize = len;
    while j < 16
        invariant
            len <= j <= 16,
            len <= n@.len(),
            p@ == fixed + n@.take(len as int) + Seq::new((j - len) as nat, |k: int| 0u8),
        decreases 16 - j,
    {
        p.push(0u8);
        j = j + 1;
        assert(Seq::new((j - len) as nat, |k: int| 0u8) == Seq::new((j - 1 - len) as nat, |k: int| 0u8).push(0u8));
    }
    assert(p@ == fixed + name_field(n@));
    p.push((fc % 256) as u8);
    p.push((fc / 256 % 256) as u8);
    p.push((fc / 65536 % 256) as u8);
    p.push((fc / 16777216) as u8);
    assert(p@ == vban_header(n@, sr, ch, fc, ns));
    let ghost header = p@;
    let mut k: usize = 0;
    while k < data.len()
        invariant
            k <= data@.len(),
            header.len() == HEADER_LEN,
            p@ == header + data@.take(k as int),
        decreases data@.len() - k,
    {
        p.push(data[k]);
        k = k + 1;
        assert(data@.take(k as int) == data@.take(k - 1).push(data@[k - 1]));
    }
    assert(data@.take(data@.len() as int) == data@);
    p
}

} // verus!
