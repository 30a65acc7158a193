//! Decoding of WAV containers by the `hound` crate, and the pipeline on
//! the bytes of a container.

use vstd::prelude::*;
use crate::audio::{AudioError, AudioSpec, SampleFormat, FRAME_BYTES};
use crate::convert::{widen, widened};
use crate::pipeline::{
    bytes_of,
    load_pcm_data,
    load_result,
    pipeline_result,
    process_samples,
    Settings,
};

verus! {

/// `hound::Error`, carried through as it is.
#[verifier::external_type_specification]
#[verifier::external_body]
pub struct ExHoundError(hound::Error);

/// `hound::WavReader`, a streaming reader of one WAV container.
#[verifier::external_type_specification]
#[verifier::external_body]
#[verifier::reject_recursive_types(R)]
pub struct ExWavReader<R>(hound::WavReader<R>);

/// What `hound::WavReader::new` makes of the bytes of a container:
/// nothing where it refuses them, otherwise the channel count, the sample
/// rate, whether the samples are stored as floating point, and what
/// reading every sample as a 16-bit integer gives, sample by sample.
pub uninterp spec fn wav_decoding(bytes: Seq<u8>) -> Option<(u16, u32, bool, Seq<Option<i16>>)>;

/// The samples that a reader has yet to hand out, each as what reading
/// it as a 16-bit integer gives.
pub uninterp spec fn pending_samples(reader: hound::WavReader<&[u8]>) -> Seq<Option<i16>>;

/// The channel count and the sample rate of a reader's container, and
/// whether its samples are stored as floating point.
pub uninterp spec fn reader_shape(reader: hound::WavReader<&[u8]>) -> (u16, u32, bool);

/// Calls `hound::WavReader::new` on the bytes of a container. The
/// contract names the outcome: the reader's shape and pending samples
/// are those of `wav_decoding`, and an error comes exactly where
/// `wav_decoding` is nothing.
#[verifier::external_body]
fn open_wav<'a>(bytes: &'a [u8]) -> (r: Result<hound::WavReader<&'a [u8]>, hound::Error>)
    ensures
        match r {
            Ok(reader) => wav_decoding(bytes@) == Some(
                (
                    reader_shape(reader).0,
                    reader_shape(reader).1,
                    reader_shape(reader).2,
                    pending_samples(reader),
                ),
            ),
            Err(_) => wav_decoding(bytes@) is None,
        },
{
    hound::WavReader::new(bytes)
}

/// Calls `hound::WavReader::spec` and returns the channel count, the
/// sample rate and whether the sample format is floating point.
#[verifier::external_body]
fn wav_shape(reader: &hound::WavReader<&[u8]>) -> (shape: (u16, u32, bool))
    ensures
        shape == reader_shape(*reader),
{
    let spec = reader.spec();
    let float = match spec.sample_format {
        hound::SampleFormat::Float => true,
        hound::SampleFormat::Int => false,
    };
    (spec.channels, spec.sample_rate, float)
}

/// Takes the next item of `hound::WavReader::samples::<i16>`: nothing
/// when every sample was handed out, otherwise the first pending sample,
/// which is no value where `hound` could not read it as a 16-bit
/// integer. The sample leaves the pending ones.
#[verifier::external_body]
fn next_sample(reader: &mut hound::WavReader<&[u8]>) -> (item: Option<Option<i16>>)
    ensures
        match item {
            Some(s) => pending_samples(*old(reader)).len() > 0 && s == pending_samples(
                *old(reader),
            )[0] && pending_samples(*final(reader)) == pending_samples(*old(reader)).skip(1),
            None => pending_samples(*old(reader)).len() == 0 && pending_samples(*final(reader))
                == pending_samples(*old(reader)),
        },
{
    reader.samples::<i16>().next().map(|s| s.ok())
}

/// The sample that stands for a decoded item: the value that was read,
/// or silence where none could be read.
pub open spec fn or_silence(item: Option<i16>) -> i16 {
    match item {
        Some(v) => v,
        None => 0,
    }
}

/// The decoded samples with silence in place of each unreadable one.
pub open spec fn silenced(raw: Seq<Option<i16>>) -> Seq<i16> {
    Seq::new(raw.len(), |i: int| or_silence(raw[i]))
}

/// Substitutes silence for a sample that could not be read.
pub fn substitute_silence(item: Option<i16>) -> (v: i16)
    ensures
        v == or_silence(item),
{
    match item {
        Some(v) => v,
        None => 0,
    }
}

/// The shape of a recording as a decoder reports it.
pub open spec fn spec_of(channels: u16, sample_rate: u32, float: bool) -> AudioSpec {
    AudioSpec {
        channel_count: channels,
        sample_rate,
        sample_format: if float {
            SampleFormat::Float32
        } else {
            SampleFormat::Int16
        },
    }
}

/// A decoded recording: its shape and its samples.
pub struct Decoded {
    /// The shape read from the container.
    pub spec: AudioSpec,
    /// The channel-interleaved samples.
    pub samples: Vec<i16>,
}

/// What decoding makes of the named outcome of the outside decoder.
pub open spec fn decoded_of(outcome: Option<(u16, u32, bool, Seq<Option<i16>>)>) -> Result<
    (AudioSpec, Seq<i16>),
    AudioError,
> {
    match outcome {
        None => Err(AudioError::Decode),
        Some((channels, rate, float, raw)) => if float {
            Err(AudioError::UnsupportedFormat)
        } else {
            Ok((spec_of(channels, rate, float), silenced(raw)))
        },
    }
}

/// Makes a recording of what a decoder reported: the shape, and the
/// samples with silence in place of each unreadable one. Samples stored
/// as floating point are refused.
pub fn interpret(channels: u16, sample_rate: u32, float: bool, raw: &[Option<i16>]) -> (r: Result<
    Decoded,
    AudioError,
>)
    ensures
        match decoded_of(Some((channels, sample_rate, float, raw@))) {
            Err(e) => r == Err::<Decoded, AudioError>(e),
            Ok((spec, samples)) => r matches Ok(d) && d.spec == spec && d.samples@ == samples,
        },
{
    if float {
        return Err(AudioError::UnsupportedFormat);
    }
    let mut samples: Vec<i16> = Vec::new();
    let mut i: usize = 0;
    while i < raw.len()
        invariant
            i <= raw@.len(),
            samples@.len() == i,
            forall|j: int| 0 <= j < i ==> samples@[j] == or_silence(raw@[j]),
        decreases raw@.len() - i,
    {
        samples.push(substitute_silence(raw[i]));
        i += 1;
    }
    assert(samples@ =~= silenced(raw@));
    Ok(
        Decoded {
            spec: AudioSpec {
                channel_count: channels,
                sample_rate,
                sample_format: SampleFormat::Int16,
            },
            samples,
        },
    )
}

/// Takes every pending sample out of a reader, in order.
fn read_all(reader: &mut hound::WavReader<&[u8]>) -> (raw: Vec<Option<i16>>)
    ensures
        raw@ == pending_samples(*old(reader)),
        pending_samples(*final(reader)).len() == 0,
{
    let mut raw: Vec<Option<i16>> = Vec::new();
    loop
        invariant
            pending_samples(*reader) == pending_samples(*old(reader)).skip(raw@.len() as int),
            raw@.len() + pending_samples(*reader).len() == pending_samples(*old(reader)).len(),
            forall|i: int| 0 <= i < raw@.len() ==> raw@[i] == pending_samples(*old(reader))[i],
        ensures
            raw@ == pending_samples(*old(reader)),
            pending_samples(*reader).len() == 0,
        decreases pending_samples(*reader).len(),
    {
        match next_sample(reader) {
            Some(item) => {
                raw.push(item);
            },
            None => {
                assert(raw@ =~= pending_samples(*old(reader)));
                break ;
            },
        }
    }
    raw
}

/// Decodes the bytes of a WAV container with integer samples. Samples
/// that cannot be read as 16-bit integers become silence; a container
/// with floating-point samples is refused.
pub fn decode(bytes: &[u8]) -> (r: Result<Decoded, AudioError>)
    ensures
        match decoded_of(wav_decoding(bytes@)) {
            Err(e) => r == Err::<Decoded, AudioError>(e),
            Ok((spec, samples)) => r matches Ok(d) && d.spec == spec && d.samples@ == samples,
        },
{
    match open_wav(bytes) {
        Err(_) => Err(AudioError::Decode),
        Ok(opened) => {
            let mut reader = opened;
            let shape: (u16, u32, bool) = wav_shape(&reader);
            let raw: Vec<Option<i16>> = read_all(&mut reader);
            interpret(shape.0, shape.1, shape.2, raw.as_slice())
        },
    }
}

/// Runs the whole pipeline on the bytes of a WAV container: decodes
/// them and processes the recording. The result is that of
/// `process_samples` on what the decoder made of the bytes.
pub fn process(wav_bytes: &[u8], settings: Settings) -> (r: Result<Vec<u8>, AudioError>)
    requires
        settings.wf(),
    ensures
        bytes_of(r) == match decoded_of(wav_decoding(wav_bytes@)) {
            Err(e) => Err(e),
            Ok((spec, samples)) => pipeline_result(widened(samples), spec, settings),
        },
        r matches Ok(bytes) ==> bytes@.len() % (FRAME_BYTES as nat) == 0,
{
    match decode(wav_bytes) {
        Err(e) => Err(e),
        Ok(d) => process_samples(widen(d.samples.as_slice()), d.spec, settings),
    }
}

/// Formats and aligns the recording in a WAV container as it is. The
/// result is that of `load_pcm_data` on what the decoder made of the
/// bytes.
pub fn load_pcm(wav_bytes: &[u8]) -> (r: Result<Vec<u8>, AudioError>)
    ensures
        bytes_of(r) == match decoded_of(wav_decoding(wav_bytes@)) {
            Err(e) => Err(e),
            Ok((spec, samples)) => load_result(widened(samples), spec),
        },
        r matches Ok(bytes) ==> bytes@.len() % (FRAME_BYTES as nat) == 0,
{
    match decode(wav_bytes) {
        Err(e) => Err(e),
        Ok(d) => load_pcm_data(widen(d.samples.as_slice()), d.spec),
    }
}

} // verus!
