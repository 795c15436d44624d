//! The 44-byte header of a PCM WAVE file, and writers that lay out a whole
//! file, header first, in a byte buffer.
//!
//! Nothing here touches a file. A writer appends to a `Vec<u8>` that the
//! caller hands on to whatever medium the bytes are meant for.
use crate::binary32::Binary32;
use crate::bytes::{le_bytes_2, le_bytes_4, push_le_u16, push_le_u32};
use crate::sample::WaveComponent;
use vstd::layout::size_of;
use vstd::prelude::*;

verus! {

/// Why a file could not be laid out.
#[derive(Clone, Copy, Debug, PartialEq, Eq, Structural)]
pub enum WaveError {
    /// The buffer does not hold as many samples, or bytes, as the caller
    /// declared.
    LengthMismatch,
}

impl WaveError {
    /// What went wrong, in words.
    pub fn message(&self) -> (text: &'static str)
        ensures
            text@ == "Data length not equal to the number of samples"@,
    {
        match self {
            WaveError::LengthMismatch => "Data length not equal to the number of samples",
        }
    }
}

/// The tag `RIFF` that opens the file.
pub open spec fn riff_tag() -> Seq<u8> {
    seq![0x52u8, 0x49u8, 0x46u8, 0x46u8]
}

/// The tag `WAVE` that names the format.
pub open spec fn wave_tag() -> Seq<u8> {
    seq![0x57u8, 0x41u8, 0x56u8, 0x45u8]
}

/// The tag `fmt ` that opens the format sub-chunk.
pub open spec fn fmt_tag() -> Seq<u8> {
    seq![0x66u8, 0x6du8, 0x74u8, 0x20u8]
}

/// The tag `data` that opens the data sub-chunk.
pub open spec fn data_tag() -> Seq<u8> {
    seq![0x64u8, 0x61u8, 0x74u8, 0x61u8]
}

/// What a header holds, field by field, as mathematical values.
pub struct HeaderFields {
    pub chunk_id: Seq<u8>,
    pub chunk_size: nat,
    pub format: Seq<u8>,
    pub sub_chunk_1_id: Seq<u8>,
    pub sub_chunk_1_size: nat,
    pub audio_format: nat,
    pub num_channels: nat,
    pub sample_rate: nat,
    pub byte_rate: nat,
    pub block_align: nat,
    pub bits_per_sample: nat,
    pub sub_chunk_2_id: Seq<u8>,
    pub sub_chunk_2_size: nat,
}

impl HeaderFields {
    /// The header as it stands in a file: every field in declaration
    /// order, numbers least significant byte first.
    pub open spec fn bytes(self) -> Seq<u8> {
        self.chunk_id + le_bytes_4(self.chunk_size as int) + self.format + self.sub_chunk_1_id
            + le_bytes_4(self.sub_chunk_1_size as int) + le_bytes_2(self.audio_format as int)
            + le_bytes_2(self.num_channels as int) + le_bytes_4(self.sample_rate as int)
            + le_bytes_4(self.byte_rate as int) + le_bytes_2(self.block_align as int) + le_bytes_2(
            self.bits_per_sample as int,
        ) + self.sub_chunk_2_id + le_bytes_4(self.sub_chunk_2_size as int)
    }

    /// The four tags are the ones of a WAVE file.
    pub open spec fn tagged(self) -> bool {
        &&& self.chunk_id == riff_tag()
        &&& self.format == wave_tag()
        &&& self.sub_chunk_1_id == fmt_tag()
        &&& self.sub_chunk_2_id == data_tag()
    }
}

/// Bytes of payload per second of audio.
pub open spec fn byte_rate_of(num_channels: nat, sample_rate: nat, bits_per_sample: nat) -> nat {
    sample_rate * num_channels * bits_per_sample / 8
}

/// Bytes per frame, a frame being one sample of every channel.
pub open spec fn block_align_of(num_channels: nat, bits_per_sample: nat) -> nat {
    num_channels * bits_per_sample / 8
}

/// The fields of the header that describes `data_size` bytes of
/// uncompressed PCM samples.
pub open spec fn pcm_fields(
    data_size: nat,
    num_channels: nat,
    sample_rate: nat,
    bits_per_sample: nat,
) -> HeaderFields {
    HeaderFields {
        chunk_id: riff_tag(),
        chunk_size: data_size + 36,
        format: wave_tag(),
        sub_chunk_1_id: fmt_tag(),
        sub_chunk_1_size: 16,
        audio_format: 1,
        num_channels,
        sample_rate,
        byte_rate: byte_rate_of(num_channels, sample_rate, bits_per_sample),
        block_align: block_align_of(num_channels, bits_per_sample),
        bits_per_sample,
        sub_chunk_2_id: data_tag(),
        sub_chunk_2_size: data_size,
    }
}

/// Every field of [`pcm_fields`] fits the width that the file format
/// gives it: two bytes for the channel count, the block alignment and the
/// bits per sample, four bytes for the others.
pub open spec fn pcm_fields_fit(
    data_size: nat,
    num_channels: nat,
    sample_rate: nat,
    bits_per_sample: nat,
) -> bool {
    &&& data_size + 36 <= u32::MAX
    &&& num_channels <= u16::MAX
    &&& sample_rate <= u32::MAX
    &&& bits_per_sample <= u16::MAX
    &&& byte_rate_of(num_channels, sample_rate, bits_per_sample) <= u32::MAX
    &&& block_align_of(num_channels, bits_per_sample) <= u16::MAX
}

/// The payload of a file: the bytes of every sample, in the order of the
/// samples.
pub open spec fn encode_all<T: WaveComponent>(samples: Seq<Binary32>) -> Seq<u8>
    decreases samples.len(),
{
    if samples.len() == 0 {
        Seq::empty()
    } else {
        encode_all::<T>(samples.drop_last()) + T::encoded(samples.last())
    }
}

/// The payload is as long as the header of a file says: the size of a
/// sample times the number of samples.
pub proof fn lemma_encode_all_len<T: WaveComponent>(samples: Seq<Binary32>)
    ensures
        encode_all::<T>(samples).len() == size_of::<T>() * samples.len(),
    decreases samples.len(),
{
    if samples.len() > 0 {
        lemma_encode_all_len::<T>(samples.drop_last());
        T::encoded_len(samples.last());
        assert(size_of::<T>() * samples.len() == size_of::<T>() * samples.drop_last().len()
            + size_of::<T>()) by (nonlinear_arith)
            requires
                samples.drop_last().len() == samples.len() - 1,
        ;
    }
}

/// A header that carries the four tags takes 44 bytes.
pub proof fn lemma_header_is_44_bytes(fields: HeaderFields)
    requires
        fields.tagged(),
    ensures
        fields.bytes().len() == 44,
{
}

/// Header struct for writing the data to a WAVE file.
#[derive(Clone, Copy, Debug, Eq, PartialEq)]
pub struct MinimalWaveHeader {
    // Main chunk
    chunk_id: [u8; 4],
    chunk_size: u32,
    format: [u8; 4],
    // Sub-chunk 1, "fmt "
    sub_chunk_1_id: [u8; 4],
    sub_chunk_1_size: u32,
    audio_format: u16,
    num_channels: u16,
    sample_rate: u32,
    byte_rate: u32,
    block_align: u16,
    bits_per_sample: u16,
    // Sub-chunk 2, "data"
    sub_chunk_2_id: [u8; 4],
    sub_chunk_2_size: u32,
}

impl View for MinimalWaveHeader {
    type V = HeaderFields;

    closed spec fn view(&self) -> HeaderFields {
        HeaderFields {
            chunk_id: self.chunk_id@,
            chunk_size: self.chunk_size as nat,
            format: self.format@,
            sub_chunk_1_id: self.sub_chunk_1_id@,
            sub_chunk_1_size: self.sub_chunk_1_size as nat,
            audio_format: self.audio_format as nat,
            num_channels: self.num_channels as nat,
            sample_rate: self.sample_rate as nat,
            byte_rate: self.byte_rate as nat,
            block_align: self.block_align as nat,
            bits_per_sample: self.bits_per_sample as nat,
            sub_chunk_2_id: self.sub_chunk_2_id@,
            sub_chunk_2_size: self.sub_chunk_2_size as nat,
        }
    }
}

/// Appends the four bytes of a tag to `w`.
fn push_tag(w: &mut Vec<u8>, tag: &[u8; 4])
    ensures
        final(w)@ == old(w)@ + tag@,
{
    w.push(tag[0]);
    w.push(tag[1]);
    w.push(tag[2]);
    w.push(tag[3]);
    assert(w@ =~= old(w)@ + tag@);
}

/// Appends every byte of `data` to `w`, in order.
fn push_all(w: &mut Vec<u8>, data: &[u8])
    ensures
        final(w)@ == old(w)@ + data@,
{
    let mut i: usize = 0;
    while i < data.len()
        invariant
            i <= data@.len(),
            w@ == old(w)@ + data@.subrange(0, i as int),
        decreases data@.len() - i,
    {
        w.push(data[i]);
        i += 1;
        assert(w@ =~= old(w)@ + data@.subrange(0, i as int));
    }
    assert(data@.subrange(0, i as int) =~= data@);
}

/// Byte rate and block alignment, before they are narrowed to the width
/// of their fields.
fn derived_rates(num_channels: u16, sample_rate: u32, bits_per_sample: u16) -> (rates: (u64, u32))
    ensures
        rates.0 == byte_rate_of(num_channels as nat, sample_rate as nat, bits_per_sample as nat),
        rates.1 == block_align_of(num_channels as nat, bits_per_sample as nat),
{
    assert(num_channels * bits_per_sample <= 0xffff * 0xffff) by (nonlinear_arith)
        requires
            num_channels <= 0xffff,
            bits_per_sample <= 0xffff,
    ;
    let frame_bits: u32 = num_channels as u32 * bits_per_sample as u32;
    assert(sample_rate * frame_bits <= 0xffff_ffff * 0xffff_ffff) by (nonlinear_arith)
        requires
            sample_rate <= 0xffff_ffff,
            frame_bits <= 0xffff_ffff,
    ;
    assert(sample_rate * num_channels * bits_per_sample == sample_rate * frame_bits)
        by (nonlinear_arith)
        requires
            frame_bits == num_channels * bits_per_sample,
    ;
    let rate_bits: u64 = sample_rate as u64 * frame_bits as u64;
    (rate_bits / 8, frame_bits / 8)
}

/// Tells whether every field of the header for such a file fits the width
/// that the format gives it.
pub fn check_pcm_fields(
    data_size: u32,
    num_channels: u16,
    sample_rate: u32,
    bits_per_sample: u16,
) -> (fits: bool)
    ensures
        fits == pcm_fields_fit(
            data_size as nat,
            num_channels as nat,
            sample_rate as nat,
            bits_per_sample as nat,
        ),
{
    let (byte_rate, block_align) = derived_rates(num_channels, sample_rate, bits_per_sample);
    data_size <= u32::MAX - 36 && byte_rate <= u32::MAX as u64 && block_align <= u16::MAX as u32
}

impl MinimalWaveHeader {
    /// Create a new WAVE header object. The four tags are fixed; every
    /// other field is taken as given.
    pub fn new(
        chunk_size: u32,
        sub_chunk_1_size: u32,
        audio_format: u16,
        num_channels: u16,
        sample_rate: u32,
        byte_rate: u32,
        block_align: u16,
        bits_per_sample: u16,
        sub_chunk_2_size: u32,
    ) -> (header: Self)
        ensures
            header@ == (HeaderFields {
                chunk_id: riff_tag(),
                chunk_size: chunk_size as nat,
                format: wave_tag(),
                sub_chunk_1_id: fmt_tag(),
                sub_chunk_1_size: sub_chunk_1_size as nat,
                audio_format: audio_format as nat,
                num_channels: num_channels as nat,
                sample_rate: sample_rate as nat,
                byte_rate: byte_rate as nat,
                block_align: block_align as nat,
                bits_per_sample: bits_per_sample as nat,
                sub_chunk_2_id: data_tag(),
                sub_chunk_2_size: sub_chunk_2_size as nat,
            }),
    {
        let header = Self {
            chunk_id: [0x52, 0x49, 0x46, 0x46],
            chunk_size,
            format: [0x57, 0x41, 0x56, 0x45],
            sub_chunk_1_id: [0x66, 0x6d, 0x74, 0x20],
            sub_chunk_1_size,
            audio_format,
            num_channels,
            sample_rate,
            byte_rate,
            block_align,
            bits_per_sample,
            sub_chunk_2_id: [0x64, 0x61, 0x74, 0x61],
            sub_chunk_2_size,
        };
        proof {
            assert(header.chunk_id@ =~= riff_tag());
            assert(header.format@ =~= wave_tag());
            assert(header.sub_chunk_1_id@ =~= fmt_tag());
            assert(header.sub_chunk_2_id@ =~= data_tag());
        }
        header
    }

    /// The header that describes `data_size` bytes of uncompressed PCM
    /// samples.
    fn for_pcm(
        data_size: u32,
        num_channels: u16,
        sample_rate: u32,
        bits_per_sample: u16,
    ) -> (header: Self)
        requires
            pcm_fields_fit(
                data_size as nat,
                num_channels as nat,
                sample_rate as nat,
                bits_per_sample as nat,
            ),
        ensures
            header@ == pcm_fields(
                data_size as nat,
                num_channels as nat,
                sample_rate as nat,
                bits_per_sample as nat,
            ),
    {
        let (byte_rate, block_align) = derived_rates(num_channels, sample_rate, bits_per_sample);
        Self::new(
            data_size + 36,
            16,
            1,
            num_channels,
            sample_rate,
            byte_rate as u32,
            block_align as u16,
            bits_per_sample,
            data_size,
        )
    }

    /// Write a WAVE file which is generic over the bit-depth of the output
    /// data size: the header for `num_samples` samples of the size of `T`,
    /// then every sample of `data` as `T` encodes it. The user can supply a
    /// buffer of samples ranging from -1.0 to 1.0.
    ///
    /// Where `data` does not hold `num_samples` samples, nothing is
    /// written.
    pub fn write_wave_file<T: WaveComponent>(
        w: &mut Vec<u8>,
        data: &[Binary32],
        num_samples: u32,
        num_channels: u16,
        sample_rate: u32,
    ) -> (result: Result<(), WaveError>)
        requires
            data@.len() == num_samples ==> pcm_fields_fit(
                size_of::<T>() * (num_samples as nat),
                num_channels as nat,
                sample_rate as nat,
                size_of::<T>() * 8,
            ),
        ensures
            data@.len() != num_samples ==> ({
                &&& result == Err::<(), WaveError>(WaveError::LengthMismatch)
                &&& final(w)@ == old(w)@
            }),
            data@.len() == num_samples ==> ({
                &&& result == Ok::<(), WaveError>(())
                &&& final(w)@ == old(w)@ + pcm_fields(
                    size_of::<T>() * (num_samples as nat),
                    num_channels as nat,
                    sample_rate as nat,
                    size_of::<T>() * 8,
                ).bytes() + encode_all::<T>(data@)
                &&& final(w)@.len() == old(w)@.len() + 44 + size_of::<T>() * num_samples
            }),
    {
        if data.len() != num_samples as usize {
            return Err(WaveError::LengthMismatch);
        }
        let width: usize = core::mem::size_of::<T>();
        let bits_per_sample: u16 = (width * 8) as u16;
        assert(width * num_samples == size_of::<T>() * num_samples) by (nonlinear_arith)
            requires
                width == size_of::<T>(),
        ;
        let data_size: u32 = (width as u64 * num_samples as u64) as u32;
        let header = Self::for_pcm(data_size, num_channels, sample_rate, bits_per_sample);
        header.write_wave_header(w);
        let ghost after_header = w@;
        let mut i: usize = 0;
        while i < data.len()
            invariant
                i <= data@.len(),
                w@ == after_header + encode_all::<T>(data@.subrange(0, i as int)),
            decreases data@.len() - i,
        {
            let mut bytes = T::float_to_audio_sample(data[i]);
            w.append(&mut bytes);
            i += 1;
            proof {
                let done = data@.subrange(0, i as int);
                assert(done.drop_last() =~= data@.subrange(0, i - 1));
                assert(w@ =~= after_header + encode_all::<T>(done));
            }
        }
        proof {
            assert(data@.subrange(0, i as int) =~= data@);
            lemma_encode_all_len::<T>(data@);
        }
        Ok(())
    }

    /// Write a WAVE file with data already existing in a `u8` buffer: the
    /// header for `data_size` bytes, then `data` as it is.
    ///
    /// Where `data` is not `data_size` bytes long, nothing is written.
    pub fn write_wave_file_u8(
        w: &mut Vec<u8>,
        data: &[u8],
        data_size: u32,
        num_channels: u16,
        sample_rate: u32,
        bits_per_sample: u16,
    ) -> (result: Result<(), WaveError>)
        requires
            data@.len() == data_size ==> pcm_fields_fit(
                data_size as nat,
                num_channels as nat,
                sample_rate as nat,
                bits_per_sample as nat,
            ),
        ensures
            data@.len() != data_size ==> ({
                &&& result == Err::<(), WaveError>(WaveError::LengthMismatch)
                &&& final(w)@ == old(w)@
            }),
            data@.len() == data_size ==> ({
                &&& result == Ok::<(), WaveError>(())
                &&& final(w)@ == old(w)@ + pcm_fields(
                    data_size as nat,
                    num_channels as nat,
                    sample_rate as nat,
                    bits_per_sample as nat,
                ).bytes() + data@
                &&& final(w)@.len() == old(w)@.len() + 44 + data_size
            }),
    {
        if data.len() != data_size as usize {
            return Err(WaveError::LengthMismatch);
        }
        let header = Self::for_pcm(data_size, num_channels, sample_rate, bits_per_sample);
        header.write_wave_header(w);
        push_all(w, data);
        Ok(())
    }

    /// Write the header's contents to the end of `w`: 44 bytes, the fields
    /// in order, numbers least significant byte first.
    pub fn write_wave_header(&self, w: &mut Vec<u8>)
        ensures
            final(w)@ == old(w)@ + self@.bytes(),
            final(w)@.len() == old(w)@.len() + 44,
    {
        push_tag(w, &self.chunk_id);
        push_le_u32(w, self.chunk_size);
        push_tag(w, &self.format);
        push_tag(w, &self.sub_chunk_1_id);
        push_le_u32(w, self.sub_chunk_1_size);
        push_le_u16(w, self.audio_format);
        push_le_u16(w, self.num_channels);
        push_le_u32(w, self.sample_rate);
        push_le_u32(w, self.byte_rate);
        push_le_u16(w, self.block_align);
        push_le_u16(w, self.bits_per_sample);
        push_tag(w, &self.sub_chunk_2_id);
        push_le_u32(w, self.sub_chunk_2_size);
        assert(w@ =~= old(w)@ + self@.bytes());
    }
}

} // verus!
