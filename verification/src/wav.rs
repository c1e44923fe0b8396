//! Sound as bytes: 16-bit samples, bare for streaming or as a WAV file.

use vstd::prelude::*;

verus! {

/// The bytes of the header of a WAV file.
pub const HEADER: usize = 44;

/// A sample as an unsigned number, in two's complement.
pub open spec fn twos_complement(x: i16) -> nat {
    if x < 0 {
        (x + 0x1_0000) as nat
    } else {
        x as nat
    }
}

/// The sample that an unsigned number stands for, in two's complement.
pub open spec fn signed(n: nat) -> int {
    if n >= 0x8000 {
        n - 0x1_0000
    } else {
        n as int
    }
}

/// The two bytes of a 16-bit number, the low one first.
pub open spec fn le16(n: nat) -> Seq<u8> {
    seq![(n % 0x100) as u8, (n / 0x100) as u8]
}

/// The four bytes of a 32-bit number, the low one first.
pub open spec fn le32(n: nat) -> Seq<u8> {
    seq![
        (n % 0x100) as u8,
        (n / 0x100 % 0x100) as u8,
        (n / 0x1_0000 % 0x100) as u8,
        (n / 0x100_0000) as u8,
    ]
}

/// The 16-bit number whose bytes stand at `at`.
pub open spec fn read16(bytes: Seq<u8>, at: int) -> nat {
    (bytes[at] + bytes[at + 1] * 0x100) as nat
}

/// The 32-bit number whose bytes stand at `at`.
pub open spec fn read32(bytes: Seq<u8>, at: int) -> nat {
    (bytes[at] + bytes[at + 1] * 0x100 + bytes[at + 2] * 0x1_0000 + bytes[at + 3] * 0x100_0000)
        as nat
}

/// The bytes of the samples, one after the other.
pub open spec fn pcm(samples: Seq<i16>) -> Seq<u8> {
    Seq::new(
        2 * samples.len(),
        |i: int| le16(twos_complement(samples[i / 2]))[i % 2],
    )
}

/// The size of the samples as the header holds it, which has 32 bits for it.
pub open spec fn data_size(len: nat) -> nat {
    (2 * len) % 0x1_0000_0000
}

/// The header of a WAV file of `len` samples.
pub open spec fn header(len: nat, sample_rate: u32, channels: u16) -> Seq<u8> {
    // RIFF
    seq![0x52u8, 0x49u8, 0x46u8, 0x46u8] + le32(36 + data_size(len))
    // WAVE
     + seq![0x57u8, 0x41u8, 0x56u8, 0x45u8]
    // fmt, 16 bytes of it: PCM
     + seq![0x66u8, 0x6du8, 0x74u8, 0x20u8] + le32(16) + le16(1) + le16(channels as nat) + le32(
        sample_rate as nat,
    ) + le32((sample_rate * channels * 2) as nat) + le16((channels * 2) as nat) + le16(16)
    // data
     + seq![0x64u8, 0x61u8, 0x74u8, 0x61u8] + le32(data_size(len))
}

fn push16(out: &mut Vec<u8>, n: u16)
    ensures
        final(out)@ == old(out)@ + le16(n as nat),
{
    out.push((n % 0x100) as u8);
    out.push((n / 0x100) as u8);
    assert(out@ =~= old(out)@ + le16(n as nat));
}

fn push32(out: &mut Vec<u8>, n: u32)
    ensures
        final(out)@ == old(out)@ + le32(n as nat),
{
    out.push((n % 0x100) as u8);
    out.push((n / 0x100 % 0x100) as u8);
    out.push((n / 0x1_0000 % 0x100) as u8);
    out.push((n / 0x100_0000) as u8);
    assert(out@ =~= old(out)@ + le32(n as nat));
}

fn push_tag(out: &mut Vec<u8>, a: u8, b: u8, c: u8, d: u8)
    ensures
        final(out)@ == old(out)@ + seq![a, b, c, d],
{
    out.push(a);
    out.push(b);
    out.push(c);
    out.push(d);
    assert(out@ =~= old(out)@ + seq![a, b, c, d]);
}

fn push_samples(out: &mut Vec<u8>, samples: &[i16])
    ensures
        final(out)@ == old(out)@ + pcm(samples@),
{
    let mut i: usize = 0;
    assert(out@ =~= old(out)@ + pcm(samples@.take(0)));
    while i < samples.len()
        invariant
            i <= samples@.len(),
            out@ == old(out)@ + pcm(samples@.take(i as int)),
        decreases samples@.len() - i,
    {
        let x: i16 = samples[i];
        let n: u16 = if x < 0 {
            (x as i32 + 0x1_0000) as u16
        } else {
            x as u16
        };
        assert(n as nat == twos_complement(x));
        push16(out, n);
        i += 1;
        assert(pcm(samples@.take(i as int)) =~= pcm(samples@.take(i - 1)) + le16(
            twos_complement(x),
        ));
        assert(out@ =~= old(out)@ + pcm(samples@.take(i as int)));
    }
    assert(samples@.take(samples@.len() as int) =~= samples@);
}

/// Writes samples as a WAV file.
pub fn to_wav_bytes(samples: &[i16], sample_rate: u32, channels: u16) -> (r: Vec<u8>)
    requires
        sample_rate * channels * 2 <= u32::MAX,
        channels * 2 <= u16::MAX,
        36 + data_size(samples@.len()) <= u32::MAX,
        HEADER + 2 * samples@.len() <= usize::MAX,
    ensures
        r@ == header(samples@.len(), sample_rate, channels) + pcm(samples@),
{
    let mut out: Vec<u8> = Vec::new();
    let size: u32 = (samples.len() as u64 * 2 % 0x1_0000_0000) as u32;
    let rate_of_frames: u32 = sample_rate * channels as u32;
    let byte_rate: u32 = rate_of_frames * 2;
    push_tag(&mut out, 0x52, 0x49, 0x46, 0x46);
    push32(&mut out, 36 + size);
    push_tag(&mut out, 0x57, 0x41, 0x56, 0x45);
    push_tag(&mut out, 0x66, 0x6d, 0x74, 0x20);
    push32(&mut out, 16);
    push16(&mut out, 1);
    push16(&mut out, channels);
    push32(&mut out, sample_rate);
    push32(&mut out, byte_rate);
    push16(&mut out, channels * 2);
    push16(&mut out, 16);
    push_tag(&mut out, 0x64, 0x61, 0x74, 0x61);
    push32(&mut out, size);
    assert(out@ =~= header(samples@.len(), sample_rate, channels));
    push_samples(&mut out, samples);
    out
}

/// Writes samples as bare bytes, for a stream.
pub fn samples_to_linear16(samples: &[i16]) -> (r: Vec<u8>)
    ensures
        r@ == pcm(samples@),
{
    let mut out: Vec<u8> = Vec::new();
    push_samples(&mut out, samples);
    assert(out@ =~= pcm(samples@));
    out
}

/// Bare bytes hold two bytes for each sample, and each sample can be read back.
pub proof fn streamed_samples_read_back(samples: Seq<i16>)
    ensures
        pcm(samples).len() == 2 * samples.len(),
        forall|i: int|
            0 <= i < samples.len() ==> signed(read16(pcm(samples), 2 * i)) == #[trigger] samples[i],
{
    assert forall|i: int| 0 <= i < samples.len() implies signed(read16(pcm(samples), 2 * i))
        == #[trigger] samples[i] by {
        assert(pcm(samples)[2 * i] == le16(twos_complement(samples[i]))[0]);
        assert(pcm(samples)[2 * i + 1] == le16(twos_complement(samples[i]))[1]);
    }
}

/// A WAV file is its header and two bytes for each sample. The header names the number
/// of channels, the sample rate and 16 bits per sample, and, where they fit into 32
/// bits, the size of the samples and of what follows the first eight bytes. Each sample
/// can be read back.
pub proof fn wav_files_read_back(samples: Seq<i16>, sample_rate: u32, channels: u16)
    ensures
        ({
            let file = header(samples.len(), sample_rate, channels) + pcm(samples);
            &&& file.len() == HEADER + 2 * samples.len()
            &&& read16(file, 22) == channels
            &&& read32(file, 24) == sample_rate
            &&& read16(file, 34) == 16
            &&& 36 + 2 * samples.len() <= u32::MAX ==> read32(file, 4) == file.len() - 8 && read32(
                file,
                40,
            ) == 2 * samples.len()
            &&& forall|i: int|
                0 <= i < samples.len() ==> signed(read16(file, HEADER + 2 * i))
                    == #[trigger] samples[i]
        }),
{
    let head = header(samples.len(), sample_rate, channels);
    lemma_header(samples.len(), sample_rate, channels);
    lemma_behind_header(head, samples);
}

proof fn lemma_sample_at(head: Seq<u8>, samples: Seq<i16>, i: int)
    requires
        0 <= i < samples.len(),
    ensures
        signed(read16(head + pcm(samples), head.len() + 2 * i)) == samples[i],
{
    let file = head + pcm(samples);
    let at = head.len() + 2 * i;
    let unit = le16(twos_complement(samples[i]));
    assert(pcm(samples)[2 * i] == unit[0]);
    assert(pcm(samples)[2 * i + 1] == unit[1]);
    assert(file[at] == unit[0]);
    assert(file[at + 1] == unit[1]);
}

proof fn lemma_behind_header(head: Seq<u8>, samples: Seq<i16>)
    requires
        head.len() == HEADER,
    ensures
        forall|i: int|
            0 <= i < samples.len() ==> signed(read16(head + pcm(samples), HEADER + 2 * i))
                == #[trigger] samples[i],
{
    assert forall|i: int| 0 <= i < samples.len() implies signed(
        read16(head + pcm(samples), HEADER + 2 * i),
    ) == #[trigger] samples[i] by {
        lemma_sample_at(head, samples, i);
    }
}

proof fn lemma_read16(bytes: Seq<u8>, at: int, n: nat)
    requires
        0 <= at,
        at + 2 <= bytes.len(),
        bytes.subrange(at, at + 2) == le16(n),
        n <= u16::MAX,
    ensures
        read16(bytes, at) == n,
{
    assert(bytes.subrange(at, at + 2)[0] == bytes[at]);
    assert(bytes.subrange(at, at + 2)[1] == bytes[at + 1]);
}

proof fn lemma_read32(bytes: Seq<u8>, at: int, n: nat)
    requires
        0 <= at,
        at + 4 <= bytes.len(),
        bytes.subrange(at, at + 4) == le32(n),
        n <= u32::MAX,
    ensures
        read32(bytes, at) == n,
{
    assert(bytes.subrange(at, at + 4)[0] == bytes[at]);
    assert(bytes.subrange(at, at + 4)[1] == bytes[at + 1]);
    assert(bytes.subrange(at, at + 4)[2] == bytes[at + 2]);
    assert(bytes.subrange(at, at + 4)[3] == bytes[at + 3]);
}

proof fn lemma_header(len: nat, sample_rate: u32, channels: u16)
    ensures
        ({
            let head = header(len, sample_rate, channels);
            &&& head.len() == HEADER
            &&& read16(head, 22) == channels
            &&& read32(head, 24) == sample_rate
            &&& read16(head, 34) == 16
            &&& 36 + 2 * len <= u32::MAX ==> read32(head, 4) == 36 + 2 * len && read32(head, 40)
                == 2 * len
        }),
{
    let head = header(len, sample_rate, channels);
    assert(head.len() == HEADER);
    assert(head.subrange(22, 24) =~= le16(channels as nat));
    lemma_read16(head, 22, channels as nat);
    assert(head.subrange(24, 28) =~= le32(sample_rate as nat));
    lemma_read32(head, 24, sample_rate as nat);
    assert(head.subrange(34, 36) =~= le16(16));
    lemma_read16(head, 34, 16);
    if 36 + 2 * len <= u32::MAX {
        assert(data_size(len) == 2 * len);
        assert(head.subrange(4, 8) =~= le32(36 + 2 * len));
        lemma_read32(head, 4, 36 + 2 * len);
        assert(head.subrange(40, 44) =~= le32(2 * len));
        lemma_read32(head, 40, 2 * len);
    }
}

/// The header of a WAV file marks its parts by their names, and names the format: 16 bytes
/// of it, uncompressed, with the bytes that a second and a frame of all channels take.
pub proof fn the_header_names_the_format(len: nat, sample_rate: u32, channels: u16)
    requires
        sample_rate * channels * 2 <= u32::MAX,
        channels * 2 <= u16::MAX,
    ensures
        ({
            let head = header(len, sample_rate, channels);
            &&& head.subrange(0, 4) == "RIFF"@.map_values(|c: char| c as u8)
            &&& head.subrange(8, 12) == "WAVE"@.map_values(|c: char| c as u8)
            &&& head.subrange(12, 16) == "fmt "@.map_values(|c: char| c as u8)
            &&& head.subrange(36, 40) == "data"@.map_values(|c: char| c as u8)
            &&& read32(head, 16) == 16
            &&& read16(head, 20) == 1
            &&& read32(head, 28) == sample_rate * channels * 2
            &&& read16(head, 32) == channels * 2
        }),
{
    reveal_strlit("RIFF");
    reveal_strlit("WAVE");
    reveal_strlit("fmt ");
    reveal_strlit("data");
    let head = header(len, sample_rate, channels);
    assert(head.len() == HEADER);
    assert(head.subrange(0, 4) =~= "RIFF"@.map_values(|c: char| c as u8));
    assert(head.subrange(8, 12) =~= "WAVE"@.map_values(|c: char| c as u8));
    assert(head.subrange(12, 16) =~= "fmt "@.map_values(|c: char| c as u8));
    assert(head.subrange(36, 40) =~= "data"@.map_values(|c: char| c as u8));
    assert(head.subrange(16, 20) =~= le32(16));
    lemma_read32(head, 16, 16);
    assert(head.subrange(20, 22) =~= le16(1));
    lemma_read16(head, 20, 1);
    let byte_rate = (sample_rate * channels * 2) as nat;
    assert(head.subrange(28, 32) =~= le32(byte_rate));
    lemma_read32(head, 28, byte_rate);
    assert(head.subrange(32, 34) =~= le16((channels * 2) as nat));
    lemma_read16(head, 32, (channels * 2) as nat);
}

} // verus!
