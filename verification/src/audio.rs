//! Samples as bytes: for replies in base64, and for WAV files.

use vstd::prelude::*;

verus! {

/// A number of 16 bits as bytes, lowest first.
pub open spec fn le16(v: int) -> Seq<u8> {
    seq![(v % 0x100) as u8, (v / 0x100 % 0x100) as u8]
}

/// A number of 32 bits as bytes, lowest first.
pub open spec fn le32(v: int) -> Seq<u8> {
    seq![
        (v % 0x100) as u8,
        (v / 0x100 % 0x100) as u8,
        (v / 0x1_0000 % 0x100) as u8,
        (v / 0x100_0000 % 0x100) as u8,
    ]
}

/// A sample by its bit pattern.
pub open spec fn sample_bits(s: i16) -> int {
    if s < 0 {
        s + 0x1_0000
    } else {
        s as int
    }
}

/// Samples as bytes: two for each, lowest first.
pub open spec fn pcm(samples: Seq<i16>) -> Seq<u8> {
    Seq::new(2 * samples.len(), |k: int| le16(sample_bits(samples[k / 2]))[k % 2])
}

/// The 16-bit number that stands in a file.
pub open spec fn read16(bytes: Seq<u8>, at: int) -> int {
    bytes[at] + bytes[at + 1] * 0x100
}

/// The 32-bit number that stands in a file.
pub open spec fn read32(bytes: Seq<u8>, at: int) -> int {
    read16(bytes, at) + read16(bytes, at + 2) * 0x1_0000
}

/// The sample that stands in a file.
pub open spec fn read_sample(bytes: Seq<u8>, at: int) -> int {
    let v = read16(bytes, at);
    if v >= 0x8000 {
        v - 0x1_0000
    } else {
        v
    }
}

/// Appends a number of 16 bits.
fn put16(out: &mut Vec<u8>, v: u16)
    ensures
        final(out)@ == old(out)@ + le16(v as int),
{
    out.push((v % 0x100) as u8);
    out.push((v / 0x100) as u8);
    assert(out@ =~= old(out)@ + le16(v as int));
}

/// Appends a number of 32 bits.
fn put32(out: &mut Vec<u8>, v: u32)
    ensures
        final(out)@ == old(out)@ + le32(v as int),
{
    out.push((v % 0x100) as u8);
    out.push((v / 0x100 % 0x100) as u8);
    out.push((v / 0x1_0000 % 0x100) as u8);
    out.push((v / 0x100_0000) as u8);
    assert(out@ =~= old(out)@ + le32(v as int));
}

/// Appends samples.
fn put_samples(out: &mut Vec<u8>, samples: &Vec<i16>)
    ensures
        final(out)@ == old(out)@ + pcm(samples@),
{
    let ghost head = out@;
    assert(out@ =~= head + pcm(samples@.take(0)));
    for i in 0..samples.len()
        invariant
            out@ == head + pcm(samples@.take(i as int)),
    {
        let s: i16 = samples[i];
        let bits: u16 = if s < 0 {
            (s as i32 + 0x1_0000) as u16
        } else {
            s as u16
        };
        put16(out, bits);
        proof {
            let less = samples@.take(i as int);
            let more = samples@.take(i + 1);
            assert forall|k: int| 0 <= k < pcm(more).len() implies #[trigger] pcm(more)[k] == (pcm(
                less,
            ) + le16(sample_bits(s)))[k] by {
                if k < 2 * i {
                    assert(more[k / 2] == less[k / 2]);
                } else {
                    assert(k / 2 == i);
                }
            }
            assert(pcm(more) =~= pcm(less) + le16(sample_bits(s)));
            assert(out@ =~= head + pcm(more));
        }
    }
    assert(samples@.take(samples@.len() as int) =~= samples@);
}

/// Samples as bytes.
pub fn pcm_bytes(samples: &Vec<i16>) -> (r: Vec<u8>)
    ensures
        r@ == pcm(samples@),
{
    let mut r: Vec<u8> = Vec::new();
    put_samples(&mut r, samples);
    assert(r@ =~= pcm(samples@));
    r
}

/// How long samples last, in milliseconds. The number is cut to 32 bits.
pub open spec fn duration_of(n_samples: int, sample_rate: int) -> int {
    n_samples * 1000 / sample_rate % 0x1_0000_0000
}

/// How long samples last, in milliseconds.
pub fn duration_ms(n_samples: usize, sample_rate: u32) -> (r: u32)
    requires
        sample_rate > 0,
        n_samples * 1000 <= u64::MAX,
    ensures
        r == duration_of(n_samples as int, sample_rate as int),
{
    let ms: u64 = n_samples as u64 * 1000 / sample_rate as u64;
    assert(ms as u32 == ms % 0x1_0000_0000) by (bit_vector);
    #[verifier::truncate]
    (ms as u32)
}

/// A duration that fits into 32 bits is the whole milliseconds that the samples
/// last.
pub proof fn law_durations_are_rounded_down(n_samples: int, sample_rate: int)
    requires
        0 <= n_samples,
        0 < sample_rate,
        n_samples * 1000 / sample_rate < 0x1_0000_0000,
    ensures
        duration_of(n_samples, sample_rate) * sample_rate <= n_samples * 1000,
        n_samples * 1000 < (duration_of(n_samples, sample_rate) + 1) * sample_rate,
{
    let x = n_samples * 1000;
    let q = x / sample_rate;
    assert(0 <= q && q * sample_rate <= x && x < (q + 1) * sample_rate) by (nonlinear_arith)
        requires
            q == x / sample_rate,
            0 <= x,
            0 < sample_rate,
    ;
}

/// The base64 character for six bits.
pub open spec fn base64_char(v: int) -> char {
    if v < 26 {
        (v + 'A' as int) as char
    } else if v < 52 {
        (v - 26 + 'a' as int) as char
    } else if v < 62 {
        (v - 52 + '0' as int) as char
    } else if v == 62 {
        '+'
    } else {
        '/'
    }
}

/// Byte `k`, and 0 beyond the end.
pub open spec fn byte_at(bytes: Seq<u8>, k: int) -> int {
    if k < bytes.len() {
        bytes[k] as int
    } else {
        0
    }
}

/// Three bytes from `k` on as one number, highest first.
pub open spec fn triple_at(bytes: Seq<u8>, k: int) -> int {
    byte_at(bytes, k) * 0x1_0000 + byte_at(bytes, k + 1) * 0x100 + byte_at(bytes, k + 2)
}

/// Base64 in the standard alphabet, with padding: four characters for every
/// three bytes, of which those that hold no byte are `=`.
pub open spec fn base64(bytes: Seq<u8>) -> Seq<char> {
    Seq::new(
        4 * ((bytes.len() + 2) / 3),
        |k: int|
            {
                let at = 3 * (k / 4);
                let n = triple_at(bytes, at);
                if k % 4 == 0 {
                    base64_char(n / 0x4_0000)
                } else if k % 4 == 1 {
                    base64_char(n / 0x1000 % 0x40)
                } else if at + k % 4 - 1 >= bytes.len() {
                    '='
                } else if k % 4 == 2 {
                    base64_char(n / 0x40 % 0x40)
                } else {
                    base64_char(n % 0x40)
                }
            },
    )
}

/// `encode` of `base64::engine::general_purpose::STANDARD`: the bytes in
/// base64, in the standard alphabet and with padding. Beyond the size that a
/// buffer can have, it panics.
#[verifier::external_body]
pub(crate) fn encode_base64(bytes: &Vec<u8>) -> (r: String)
    requires
        4 * ((bytes@.len() + 2) / 3) <= isize::MAX,
    ensures
        r@ == base64(bytes@),
{
    base64::Engine::encode(&base64::engine::general_purpose::STANDARD, bytes)
}

/// Every sample can be read back from the bytes.
pub proof fn law_samples_read_back(samples: Seq<i16>, k: int)
    requires
        0 <= k < samples.len(),
    ensures
        pcm(samples).len() == 2 * samples.len(),
        read_sample(pcm(samples), 2 * k) == samples[k],
{
    let b = sample_bits(samples[k]);
    assert((2 * k) / 2 == k && (2 * k) % 2 == 0);
    assert((2 * k + 1) / 2 == k && (2 * k + 1) % 2 == 1);
    assert(pcm(samples)[2 * k] == le16(b)[0]);
    assert(pcm(samples)[2 * k + 1] == le16(b)[1]);
}

/// The six bits of a base64 character.
pub open spec fn base64_value(c: char) -> int {
    if 'A' <= c && c <= 'Z' {
        c as int - 'A' as int
    } else if 'a' <= c && c <= 'z' {
        c as int - 'a' as int + 26
    } else if '0' <= c && c <= '9' {
        c as int - '0' as int + 52
    } else if c == '+' {
        62
    } else {
        63
    }
}

/// Byte `k` of what a base64 text holds.
pub open spec fn base64_byte(text: Seq<char>, k: int) -> int {
    let at = 4 * (k / 3);
    if k % 3 == 0 {
        base64_value(text[at]) * 4 + base64_value(text[at + 1]) / 16
    } else if k % 3 == 1 {
        base64_value(text[at + 1]) % 16 * 16 + base64_value(text[at + 2]) / 4
    } else {
        base64_value(text[at + 2]) % 4 * 64 + base64_value(text[at + 3])
    }
}

proof fn lemma_base64_char(v: int)
    requires
        0 <= v < 64,
    ensures
        base64_value(base64_char(v)) == v,
{
}

/// Three bytes as one number give the bytes back, six bits at a time.
proof fn lemma_triple(a: int, b: int, c: int)
    requires
        0 <= a < 0x100,
        0 <= b < 0x100,
        0 <= c < 0x100,
    ensures
        ({
            let n = a * 0x1_0000 + b * 0x100 + c;
            &&& 0 <= n / 0x4_0000 < 0x40
            &&& n / 0x4_0000 == a / 4
            &&& n / 0x1000 % 0x40 == a % 4 * 16 + b / 16
            &&& n / 0x40 % 0x40 == b % 16 * 4 + c / 64
            &&& n % 0x40 == c % 64
        }),
{
    let n = a * 0x1_0000 + b * 0x100 + c;
    assert(n / 0x4_0000 == a / 4);
    assert(n / 0x1000 == a * 16 + b / 16);
    assert(n / 0x40 == a * 0x400 + b * 4 + c / 64);
}

/// Every byte can be read back from base64.
pub proof fn law_base64_reads_back(bytes: Seq<u8>, k: int)
    requires
        0 <= k < bytes.len(),
    ensures
        base64_byte(base64(bytes), k) == bytes[k],
{
    let g = k / 3;
    let at = 3 * g;
    let text = base64(bytes);
    let a = byte_at(bytes, at);
    let b = byte_at(bytes, at + 1);
    let c = byte_at(bytes, at + 2);
    let n = triple_at(bytes, at);
    lemma_triple(a, b, c);
    lemma_base64_char(n / 0x4_0000);
    lemma_base64_char(n / 0x1000 % 0x40);
    lemma_base64_char(n / 0x40 % 0x40);
    lemma_base64_char(n % 0x40);
    assert(4 * g + 3 < text.len());
    assert((4 * g) / 4 == g && (4 * g) % 4 == 0);
    assert((4 * g + 1) / 4 == g && (4 * g + 1) % 4 == 1);
    assert((4 * g + 2) / 4 == g && (4 * g + 2) % 4 == 2);
    assert((4 * g + 3) / 4 == g && (4 * g + 3) % 4 == 3);
}

/// Every sample can be read back from the base64 of the bytes.
pub proof fn law_base64_holds_the_samples(samples: Seq<i16>, k: int)
    requires
        0 <= k < samples.len(),
    ensures
        ({
            let text = base64(pcm(samples));
            let v = base64_byte(text, 2 * k) + base64_byte(text, 2 * k + 1) * 0x100;
            samples[k] == if v >= 0x8000 {
                v - 0x1_0000
            } else {
                v
            }
        }),
{
    law_samples_read_back(samples, k);
    law_base64_reads_back(pcm(samples), 2 * k);
    law_base64_reads_back(pcm(samples), 2 * k + 1);
}

/// Four letters as bytes.
pub open spec fn tag(a: char, b: char, c: char, d: char) -> Seq<u8> {
    seq![a as u8, b as u8, c as u8, d as u8]
}

/// Appends four letters.
fn put_tag(out: &mut Vec<u8>, a: char, b: char, c: char, d: char)
    ensures
        final(out)@ == old(out)@ + tag(a, b, c, d),
{
    out.push(#[verifier::truncate] (a as u8));
    out.push(#[verifier::truncate] (b as u8));
    out.push(#[verifier::truncate] (c as u8));
    out.push(#[verifier::truncate] (d as u8));
    assert(out@ =~= old(out)@ + tag(a, b, c, d));
}

/// The length of the sound in bytes, cut to 32 bits.
pub open spec fn data_length(n_samples: int) -> int {
    n_samples * 2 % 0x1_0000_0000
}

/// The header of a WAV file with 16-bit mono samples.
pub open spec fn wav_header(n_samples: int, sample_rate: int) -> Seq<u8> {
    let data = data_length(n_samples);
    tag('R', 'I', 'F', 'F') + le32(36 + data) + tag('W', 'A', 'V', 'E') + tag('f', 'm', 't', ' ')
        + le32(16) + le16(1) + le16(1) + le32(sample_rate) + le32(sample_rate * 2) + le16(2)
        + le16(16) + tag('d', 'a', 't', 'a') + le32(data)
}

/// A WAV file with 16-bit mono samples.
pub open spec fn wav(samples: Seq<i16>, sample_rate: int) -> Seq<u8> {
    wav_header(samples.len() as int, sample_rate) + pcm(samples)
}

/// A WAV file.
pub fn wav_bytes(samples: &Vec<i16>, sample_rate: u32) -> (r: Vec<u8>)
    requires
        samples@.len() * 2 <= usize::MAX,
        36 + data_length(samples@.len() as int) <= u32::MAX,
        sample_rate * 2 <= u32::MAX,
    ensures
        r@ == wav(samples@, sample_rate as int),
{
    let wide: u64 = samples.len() as u64 * 2;
    assert(wide as u32 == wide % 0x1_0000_0000) by (bit_vector);
    let data: u32 = #[verifier::truncate] (wide as u32);
    let mut r: Vec<u8> = Vec::new();
    put_tag(&mut r, 'R', 'I', 'F', 'F');
    put32(&mut r, 36 + data);
    put_tag(&mut r, 'W', 'A', 'V', 'E');
    put_tag(&mut r, 'f', 'm', 't', ' ');
    put32(&mut r, 16);
    put16(&mut r, 1);  // PCM
    put16(&mut r, 1);  // mono
    put32(&mut r, sample_rate);
    put32(&mut r, sample_rate * 2);  // byte rate
    put16(&mut r, 2);  // block align
    put16(&mut r, 16);  // bits per sample
    put_tag(&mut r, 'd', 'a', 't', 'a');
    put32(&mut r, data);
    assert(r@ =~= wav_header(samples@.len() as int, sample_rate as int));
    put_samples(&mut r, samples);
    r
}

/// A number written with 32 bits is read back.
proof fn lemma_read32(v: int)
    requires
        0 <= v < 0x1_0000_0000,
    ensures
        read32(le32(v), 0) == v,
{
    assert(v / 0x1_0000 == v / 0x100 / 0x100);
    assert(v / 0x100_0000 == v / 0x100 / 0x100 / 0x100);
}

/// A WAV file tells what it holds. The header gives the length of the file behind
/// its first 8 bytes, the format, the rates and the length of the sound, which is
/// all that stands behind the header's 44 bytes.
pub proof fn law_wav_tells_what_it_holds(samples: Seq<i16>, sample_rate: int)
    requires
        36 + samples.len() * 2 <= u32::MAX,
        0 <= sample_rate,
        sample_rate * 2 <= u32::MAX,
    ensures
        ({
            let file = wav(samples, sample_rate);
            &&& file.len() == 44 + 2 * samples.len()
            &&& file.take(4) == tag('R', 'I', 'F', 'F')
            &&& read32(file, 4) == file.len() - 8
            &&& file.subrange(8, 12) == tag('W', 'A', 'V', 'E')
            &&& file.subrange(12, 16) == tag('f', 'm', 't', ' ')
            &&& read32(file, 16) == 16
            &&& read16(file, 20) == 1
            &&& read16(file, 22) == 1
            &&& read32(file, 24) == sample_rate
            &&& read32(file, 28) == sample_rate * 2
            &&& read16(file, 32) == 2
            &&& read16(file, 34) == 16
            &&& file.subrange(36, 40) == tag('d', 'a', 't', 'a')
            &&& read32(file, 40) == 2 * samples.len()
            &&& file.subrange(44, file.len() as int) == pcm(samples)
        }),
{
    let file = wav(samples, sample_rate);
    let data = data_length(samples.len() as int);
    assert(data == samples.len() * 2);
    lemma_wav_layout(samples, sample_rate);
    lemma_read32(36 + data);
    lemma_read32(16);
    lemma_read32(sample_rate);
    lemma_read32(sample_rate * 2);
    lemma_read32(data);
    lemma_read32_at(file, 4);
    lemma_read32_at(file, 16);
    lemma_read32_at(file, 24);
    lemma_read32_at(file, 28);
    lemma_read32_at(file, 40);
    lemma_read16_at(file, 20);
    lemma_read16_at(file, 22);
    lemma_read16_at(file, 32);
    lemma_read16_at(file, 34);
}

/// Every sample can be read back from a WAV file.
pub proof fn law_wav_samples_read_back(samples: Seq<i16>, sample_rate: int, k: int)
    requires
        0 <= k < samples.len(),
    ensures
        read_sample(wav(samples, sample_rate), 44 + 2 * k) == samples[k],
{
    let file = wav(samples, sample_rate);
    lemma_wav_layout(samples, sample_rate);
    law_samples_read_back(samples, k);
    let sound = file.subrange(44, file.len() as int);
    assert(file[44 + 2 * k] == sound[2 * k]);
    assert(file[44 + 2 * k + 1] == sound[2 * k + 1]);
}

/// Where the parts of a WAV file lie.
#[verifier::spinoff_prover]
proof fn lemma_wav_layout(samples: Seq<i16>, sample_rate: int)
    ensures
        ({
            let file = wav(samples, sample_rate);
            let data = data_length(samples.len() as int);
            &&& file.len() == 44 + 2 * samples.len()
            &&& file.take(4) == tag('R', 'I', 'F', 'F')
            &&& file.subrange(4, 8) == le32(36 + data)
            &&& file.subrange(8, 12) == tag('W', 'A', 'V', 'E')
            &&& file.subrange(12, 16) == tag('f', 'm', 't', ' ')
            &&& file.subrange(16, 20) == le32(16)
            &&& file.subrange(20, 22) == le16(1)
            &&& file.subrange(22, 24) == le16(1)
            &&& file.subrange(24, 28) == le32(sample_rate)
            &&& file.subrange(28, 32) == le32(sample_rate * 2)
            &&& file.subrange(32, 34) == le16(2)
            &&& file.subrange(34, 36) == le16(16)
            &&& file.subrange(36, 40) == tag('d', 'a', 't', 'a')
            &&& file.subrange(40, 44) == le32(data)
            &&& file.subrange(44, file.len() as int) == pcm(samples)
        }),
{
    let n = samples.len() as int;
    let file = wav(samples, sample_rate);
    let data = data_length(n);
    let h = wav_header(n, sample_rate);
    let p1 = tag('R', 'I', 'F', 'F');
    let p2 = le32(36 + data);
    let p3 = tag('W', 'A', 'V', 'E');
    let p4 = tag('f', 'm', 't', ' ');
    let p5 = le32(16);
    let p6 = le16(1);
    let p7 = le32(sample_rate);
    let p8 = le32(sample_rate * 2);
    let p9 = le16(2);
    let p10 = le16(16);
    let p11 = tag('d', 'a', 't', 'a');
    let p12 = le32(data);
    let h1 = p1 + p2;
    let h2 = h1 + p3;
    let h3 = h2 + p4;
    let h4 = h3 + p5;
    let h5 = h4 + p6;
    let h6 = h5 + p6;
    let h7 = h6 + p7;
    let h8 = h7 + p8;
    let h9 = h8 + p9;
    let h10 = h9 + p10;
    let h11 = h10 + p11;
    assert(h == h11 + p12);
    lemma_last_part(h, pcm(samples), 44);
    lemma_last_part(h11, p12, 40);
    lemma_last_part(h10, p11, 36);
    lemma_last_part(h9, p10, 34);
    lemma_last_part(h8, p9, 32);
    lemma_last_part(h7, p8, 28);
    lemma_last_part(h6, p7, 24);
    lemma_last_part(h5, p6, 22);
    lemma_last_part(h4, p6, 20);
    lemma_last_part(h3, p5, 16);
    lemma_last_part(h2, p4, 12);
    lemma_last_part(h1, p3, 8);
    lemma_last_part(p1, p2, 4);
    assert(file.take(4) =~= p1);
    assert(file.subrange(4, 8) =~= h1.subrange(4, 8));
    assert(file.subrange(8, 12) =~= h2.subrange(8, 12));
    assert(file.subrange(12, 16) =~= h3.subrange(12, 16));
    assert(file.subrange(16, 20) =~= h4.subrange(16, 20));
    assert(file.subrange(20, 22) =~= h5.subrange(20, 22));
    assert(file.subrange(22, 24) =~= h6.subrange(22, 24));
    assert(file.subrange(24, 28) =~= h7.subrange(24, 28));
    assert(file.subrange(28, 32) =~= h8.subrange(28, 32));
    assert(file.subrange(32, 34) =~= h9.subrange(32, 34));
    assert(file.subrange(34, 36) =~= h10.subrange(34, 36));
    assert(file.subrange(36, 40) =~= h11.subrange(36, 40));
    assert(file.subrange(40, 44) =~= h.subrange(40, 44));
}

/// What was appended stands behind the rest.
proof fn lemma_last_part(head: Seq<u8>, part: Seq<u8>, at: int)
    requires
        head.len() == at,
    ensures
        (head + part).len() == at + part.len(),
        (head + part).subrange(at, at + part.len()) == part,
{
    assert((head + part).subrange(at, at + part.len()) =~= part);
}

proof fn lemma_read32_at(bytes: Seq<u8>, at: int)
    requires
        0 <= at,
        at + 4 <= bytes.len(),
    ensures
        read32(bytes, at) == read32(bytes.subrange(at, at + 4), 0),
{
    let part = bytes.subrange(at, at + 4);
    assert(part[0] == bytes[at] && part[1] == bytes[at + 1]);
    assert(part[2] == bytes[at + 2] && part[3] == bytes[at + 3]);
}

proof fn lemma_read16_at(bytes: Seq<u8>, at: int)
    requires
        0 <= at,
        at + 2 <= bytes.len(),
    ensures
        read16(bytes, at) == read16(bytes.subrange(at, at + 2), 0),
{
    let part = bytes.subrange(at, at + 2);
    assert(part[0] == bytes[at] && part[1] == bytes[at + 1]);
}

/// Two bytes for every sample, at its place, are its value in two's complement,
/// the lower byte first.
pub proof fn law_two_bytes_are_a_sample(samples: Seq<i16>, k: int)
    ensures
        pcm(samples).len() == 2 * samples.len(),
        0 <= k < samples.len() ==> {
            let v = pcm(samples)[2 * k] + 256 * pcm(samples)[2 * k + 1];
            samples[k] == if v >= 32768 {
                v - 65536
            } else {
                v
            }
        },
{
    if 0 <= k < samples.len() {
        law_samples_read_back(samples, k);
    }
}

/// A character stands for six bits in the standard alphabet of base64.
pub open spec fn stands_for(c: char, v: int) -> bool {
    &&& 0 <= v < 64
    &&& v < 26 ==> c as int == 65 + v
    &&& 26 <= v < 52 ==> c as int == 97 + (v - 26)
    &&& 52 <= v < 62 ==> c as int == 48 + (v - 52)
    &&& v == 62 ==> c == '+'
    &&& v == 63 ==> c == '/'
}

/// Base64, group by group: three bytes give four characters, of six bits each in
/// order. Where one byte is left over, two characters hold it and two `=` follow;
/// where two are, three characters hold them and one `=` follows.
pub proof fn law_base64_goes_by_groups(bytes: Seq<u8>, g: int)
    requires
        0 <= g,
        3 * g < bytes.len(),
    ensures
        ({
            let t = base64(bytes);
            let n = bytes.len() as int;
            let a = bytes[3 * g] as int;
            let b = if 3 * g + 1 < n {
                bytes[3 * g + 1] as int
            } else {
                0
            };
            let c = if 3 * g + 2 < n {
                bytes[3 * g + 2] as int
            } else {
                0
            };
            &&& 4 * g + 3 < t.len()
            &&& 3 * g + 3 >= n ==> t.len() == 4 * g + 4
            &&& stands_for(t[4 * g], a / 4)
            &&& stands_for(t[4 * g + 1], a % 4 * 16 + b / 16)
            &&& 3 * g + 1 < n ==> stands_for(t[4 * g + 2], b % 16 * 4 + c / 64)
            &&& 3 * g + 1 >= n ==> t[4 * g + 2] == '='
            &&& 3 * g + 2 < n ==> stands_for(t[4 * g + 3], c % 64)
            &&& 3 * g + 2 >= n ==> t[4 * g + 3] == '='
        }),
{
    let n = triple_at(bytes, 3 * g);
    let a = byte_at(bytes, 3 * g);
    let b = byte_at(bytes, 3 * g + 1);
    let c = byte_at(bytes, 3 * g + 2);
    lemma_triple(a, b, c);
    lemma_base64_stands_for(n / 0x4_0000);
    lemma_base64_stands_for(n / 0x1000 % 0x40);
    lemma_base64_stands_for(n / 0x40 % 0x40);
    lemma_base64_stands_for(n % 0x40);
    assert((4 * g) / 4 == g && (4 * g) % 4 == 0);
    assert((4 * g + 1) / 4 == g && (4 * g + 1) % 4 == 1);
    assert((4 * g + 2) / 4 == g && (4 * g + 2) % 4 == 2);
    assert((4 * g + 3) / 4 == g && (4 * g + 3) % 4 == 3);
}

proof fn lemma_base64_stands_for(v: int)
    requires
        0 <= v < 64,
    ensures
        stands_for(base64_char(v), v),
{
}

/// Nothing in base64 is nothing.
pub proof fn law_no_bytes_no_base64(bytes: Seq<u8>)
    ensures
        base64(bytes).len() == 0 <==> bytes.len() == 0,
{
}

/// A duration is the whole milliseconds `q` that the samples last, less what does
/// not fit into 32 bits.
pub proof fn law_durations_are_whole_milliseconds(n_samples: int, sample_rate: int, q: int, m: int)
    requires
        0 <= n_samples,
        0 < sample_rate,
        0 <= m,
        q * sample_rate <= n_samples * 1000,
        n_samples * 1000 < q * sample_rate + sample_rate,
        m * 0x1_0000_0000 <= q < m * 0x1_0000_0000 + 0x1_0000_0000,
    ensures
        duration_of(n_samples, sample_rate) == q - m * 0x1_0000_0000,
{
    let x = n_samples * 1000;
    assert(x / sample_rate == q) by (nonlinear_arith)
        requires
            0 < sample_rate,
            q * sample_rate <= x,
            x < q * sample_rate + sample_rate,
    ;
}

/// A WAV file, byte by byte: the header that every player reads, for a sound of
/// `d` bytes after the cut to 32 bits, and the samples behind it.
#[verifier::spinoff_prover]
#[verifier::rlimit(100)]
pub proof fn law_wav_byte_by_byte(samples: Seq<i16>, sample_rate: int, d: int, m: int, k: int)
    requires
        0 <= m,
        samples.len() * 2 == d + m * 0x1_0000_0000,
        0 <= d,
        36 + d <= u32::MAX,
        0 <= sample_rate,
        sample_rate * 2 <= u32::MAX,
    ensures
        ({
            let f = wav(samples, sample_rate);
            &&& f.len() == 44 + 2 * samples.len()
            &&& f[0] == 0x52 && f[1] == 0x49 && f[2] == 0x46 && f[3] == 0x46
            &&& f[4] + 0x100 * f[5] + 0x1_0000 * f[6] + 0x100_0000 * f[7] == 36 + d
            &&& f[8] == 0x57 && f[9] == 0x41 && f[10] == 0x56 && f[11] == 0x45
            &&& f[12] == 0x66 && f[13] == 0x6d && f[14] == 0x74 && f[15] == 0x20
            &&& f[16] == 16 && f[17] == 0 && f[18] == 0 && f[19] == 0
            &&& f[20] == 1 && f[21] == 0 && f[22] == 1 && f[23] == 0
            &&& f[24] + 0x100 * f[25] + 0x1_0000 * f[26] + 0x100_0000 * f[27] == sample_rate
            &&& f[28] + 0x100 * f[29] + 0x1_0000 * f[30] + 0x100_0000 * f[31] == sample_rate * 2
            &&& f[32] == 2 && f[33] == 0 && f[34] == 16 && f[35] == 0
            &&& f[36] == 0x64 && f[37] == 0x61 && f[38] == 0x74 && f[39] == 0x61
            &&& f[40] + 0x100 * f[41] + 0x1_0000 * f[42] + 0x100_0000 * f[43] == d
            &&& 0 <= k < 2 * samples.len() ==> f[44 + k] == pcm(samples)[k]
        }),
{
    let f = wav(samples, sample_rate);
    assert(data_length(samples.len() as int) == d);
    lemma_wav_layout(samples, sample_rate);
    assert(f.take(4) =~= f.subrange(0, 4));
    lemma_header_bytes(f, sample_rate, d);
    if 0 <= k < 2 * samples.len() {
        assert(f[44 + k] == f.subrange(44, f.len() as int)[k]);
    }
}

/// A header that is laid out so holds these bytes.
proof fn lemma_header_bytes(f: Seq<u8>, sample_rate: int, d: int)
    requires
        f.len() >= 44,
        0 <= d,
        36 + d <= u32::MAX,
        0 <= sample_rate,
        sample_rate * 2 <= u32::MAX,
        f.subrange(0, 4) == tag('R', 'I', 'F', 'F'),
        f.subrange(4, 8) == le32(36 + d),
        f.subrange(8, 12) == tag('W', 'A', 'V', 'E'),
        f.subrange(12, 16) == tag('f', 'm', 't', ' '),
        f.subrange(16, 20) == le32(16),
        f.subrange(20, 22) == le16(1),
        f.subrange(22, 24) == le16(1),
        f.subrange(24, 28) == le32(sample_rate),
        f.subrange(28, 32) == le32(sample_rate * 2),
        f.subrange(32, 34) == le16(2),
        f.subrange(34, 36) == le16(16),
        f.subrange(36, 40) == tag('d', 'a', 't', 'a'),
        f.subrange(40, 44) == le32(d),
    ensures
        f[0] == 0x52 && f[1] == 0x49 && f[2] == 0x46 && f[3] == 0x46,
        f[4] + 0x100 * f[5] + 0x1_0000 * f[6] + 0x100_0000 * f[7] == 36 + d,
        f[8] == 0x57 && f[9] == 0x41 && f[10] == 0x56 && f[11] == 0x45,
        f[12] == 0x66 && f[13] == 0x6d && f[14] == 0x74 && f[15] == 0x20,
        f[16] == 16 && f[17] == 0 && f[18] == 0 && f[19] == 0,
        f[20] == 1 && f[21] == 0 && f[22] == 1 && f[23] == 0,
        f[24] + 0x100 * f[25] + 0x1_0000 * f[26] + 0x100_0000 * f[27] == sample_rate,
        f[28] + 0x100 * f[29] + 0x1_0000 * f[30] + 0x100_0000 * f[31] == sample_rate * 2,
        f[32] == 2 && f[33] == 0 && f[34] == 16 && f[35] == 0,
        f[36] == 0x64 && f[37] == 0x61 && f[38] == 0x74 && f[39] == 0x61,
        f[40] + 0x100 * f[41] + 0x1_0000 * f[42] + 0x100_0000 * f[43] == d,
{
    lemma_tag_at(f, 0, 'R', 'I', 'F', 'F');
    lemma_number_at(f, 4, 36 + d);
    lemma_tag_at(f, 8, 'W', 'A', 'V', 'E');
    lemma_tag_at(f, 12, 'f', 'm', 't', ' ');
    lemma_small_at(f, 16, 16);
    lemma_half_at(f, 20, 1);
    lemma_half_at(f, 22, 1);
    lemma_number_at(f, 24, sample_rate);
    lemma_number_at(f, 28, sample_rate * 2);
    lemma_half_at(f, 32, 2);
    lemma_half_at(f, 34, 16);
    lemma_tag_at(f, 36, 'd', 'a', 't', 'a');
    lemma_number_at(f, 40, d);
}

proof fn lemma_number_at(f: Seq<u8>, at: int, v: int)
    requires
        0 <= at,
        at + 4 <= f.len(),
        0 <= v < 0x1_0000_0000,
        f.subrange(at, at + 4) == le32(v),
    ensures
        f[at] + 0x100 * f[at + 1] + 0x1_0000 * f[at + 2] + 0x100_0000 * f[at + 3] == v,
{
    lemma_read32(v);
    lemma_read32_at(f, at);
}

proof fn lemma_tag_at(f: Seq<u8>, at: int, a: char, b: char, c: char, d: char)
    requires
        0 <= at,
        at + 4 <= f.len(),
        f.subrange(at, at + 4) == tag(a, b, c, d),
    ensures
        f[at] == a as u8 && f[at + 1] == b as u8 && f[at + 2] == c as u8 && f[at + 3] == d as u8,
{
    let part = f.subrange(at, at + 4);
    assert(part[0] == f[at] && part[1] == f[at + 1]);
    assert(part[2] == f[at + 2] && part[3] == f[at + 3]);
}

proof fn lemma_small_at(f: Seq<u8>, at: int, v: int)
    requires
        0 <= at,
        at + 4 <= f.len(),
        0 <= v < 0x100,
        f.subrange(at, at + 4) == le32(v),
    ensures
        f[at] == v && f[at + 1] == 0 && f[at + 2] == 0 && f[at + 3] == 0,
{
    let part = f.subrange(at, at + 4);
    assert(part[0] == f[at] && part[1] == f[at + 1]);
    assert(part[2] == f[at + 2] && part[3] == f[at + 3]);
}

proof fn lemma_half_at(f: Seq<u8>, at: int, v: int)
    requires
        0 <= at,
        at + 2 <= f.len(),
        0 <= v < 0x100,
        f.subrange(at, at + 2) == le16(v),
    ensures
        f[at] == v && f[at + 1] == 0,
{
    let part = f.subrange(at, at + 2);
    assert(part[0] == f[at] && part[1] == f[at + 1]);
}

} // verus!
