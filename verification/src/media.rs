use vstd::prelude::*;

verus! {

/// What `hound` reads from the WAV file `bytes` as 16-bit integer samples:
/// the samples where the header reads, the file holds integer samples and
/// each of them reads as `i16`; nothing otherwise (float samples among
/// them).
pub uninterp spec fn wav_decoded(bytes: Seq<u8>) -> Option<Seq<i16>>;

/// Calls `hound::WavReader::new` over `bytes` and, for a file of integer
/// samples, collects `samples::<i16>()`. The contract claims that the result
/// is `wav_decoded` of the bytes: the decoding depends on the bytes alone.
#[verifier::external_body]
fn wav_int_samples(bytes: &Vec<u8>) -> (r: Option<Vec<i16>>)
    ensures
        match r {
            Some(s) => wav_decoded(bytes@) == Some(s@),
            None => wav_decoded(bytes@) is None,
        },
{
    let mut reader = hound::WavReader::new(std::io::Cursor::new(bytes.as_slice())).ok()?;
    match reader.spec().sample_format {
        hound::SampleFormat::Int => reader.samples::<i16>().collect::<Result<Vec<i16>, hound::Error>>().ok(),
        hound::SampleFormat::Float => None,
    }
}

/// The sound of a WAV file of integer samples, as a single channel; nothing
/// where the file cannot be read as such (see `wav_decoded`).
pub fn handle_audio_data_wav(file_content: &Vec<u8>) -> (r: Option<Vec<Vec<i16>>>)
    ensures
        match wav_decoded(file_content@) {
            Some(s) => r matches Some(v) && v@.len() == 1 && v@[0]@ == s,
            None => r is None,
        },
{
    match wav_int_samples(file_content) {
        Some(samples) => {
            let mut channels: Vec<Vec<i16>> = Vec::new();
            channels.push(samples);
            Some(channels)
        },
        None => None,
    }
}

/// What `lewton` decodes from the Ogg Vorbis file `bytes`: the packets in
/// stream order, each a list of channels, each channel a list of samples,
/// where the headers and every packet read; nothing otherwise.
pub uninterp spec fn ogg_decoded(bytes: Seq<u8>) -> Option<Seq<Seq<Seq<i16>>>>;

/// Calls `lewton::inside_ogg::OggStreamReader::new` over `bytes`, then
/// `read_dec_packet` until the stream ends. The contract claims that the
/// result is `ogg_decoded` of the bytes: the decoding depends on the bytes
/// alone.
#[verifier::external_body]
fn ogg_decode_packets(bytes: &Vec<u8>) -> (r: Option<Vec<Vec<Vec<i16>>>>)
    ensures
        match r {
            Some(p) => ogg_decoded(bytes@) == Some(p.deep_view()),
            None => ogg_decoded(bytes@) is None,
        },
{
    let mut reader = lewton::inside_ogg::OggStreamReader::new(std::io::Cursor::new(bytes.as_slice())).ok()?;
    let mut packets: Vec<Vec<Vec<i16>>> = Vec::new();
    while let Some(packet) = reader.read_dec_packet().ok()? {
        packets.push(packet);
    }
    Some(packets)
}

/// The largest number of channels among `packets`.
pub open spec fn channel_count(packets: Seq<Seq<Seq<i16>>>) -> int
    decreases packets.len(),
{
    if packets.len() == 0 {
        0
    } else {
        let n = channel_count(packets.drop_last());
        if packets.last().len() > n { packets.last().len() as int } else { n }
    }
}

/// The samples of channel `c` of every packet that has it, one packet after
/// another.
pub open spec fn channel_samples(packets: Seq<Seq<Seq<i16>>>, c: int) -> Seq<i16>
    decreases packets.len(),
{
    if packets.len() == 0 {
        Seq::empty()
    } else {
        channel_samples(packets.drop_last(), c)
            + if 0 <= c < packets.last().len() { packets.last()[c] } else { Seq::empty() }
    }
}

/// The sound that `packets` make, one sample list per channel.
pub open spec fn gathered(packets: Seq<Seq<Seq<i16>>>) -> Seq<Seq<i16>> {
    Seq::new(channel_count(packets) as nat, |c: int| channel_samples(packets, c))
}

proof fn lemma_samples_deep_view(v: Vec<i16>)
    ensures
        v.deep_view() == v@,
{
    assert(v.deep_view() =~= v@);
}

/// A channel beyond every packet's channels holds no samples.
proof fn lemma_channel_beyond(packets: Seq<Seq<Seq<i16>>>, c: int)
    requires
        c >= channel_count(packets),
    ensures
        channel_samples(packets, c) == Seq::<i16>::empty(),
    decreases packets.len(),
{
    if packets.len() > 0 {
        lemma_channel_beyond(packets.drop_last(), c);
        assert(channel_samples(packets, c) =~= Seq::<i16>::empty());
    }
}

proof fn lemma_channel_count_nonneg(packets: Seq<Seq<Seq<i16>>>)
    ensures
        channel_count(packets) >= 0,
    decreases packets.len(),
{
    if packets.len() > 0 {
        lemma_channel_count_nonneg(packets.drop_last());
    }
}

/// Joins decoded packets into one sample list per channel: channel `c` holds
/// the samples of channel `c` of each packet that has it, in packet order;
/// there are as many channels as the widest packet has.
pub fn gather_channels(packets: &Vec<Vec<Vec<i16>>>) -> (r: Vec<Vec<i16>>)
    ensures
        r.deep_view() == gathered(packets.deep_view()),
{
    let ghost all = packets.deep_view();
    let mut r: Vec<Vec<i16>> = Vec::new();
    let mut k: usize = 0;
    assert(r.deep_view() =~= gathered(all.take(0)));
    while k < packets.len()
        invariant
            k <= packets@.len(),
            all == packets.deep_view(),
            r.deep_view() == gathered(all.take(k as int)),
        decreases packets@.len() - k,
    {
        let packet = &packets[k];
        let ghost before = r.deep_view();
        let ghost p = all[k as int];
        assert(p == packet.deep_view());
        let mut ci: usize = 0;
        proof { lemma_channel_count_nonneg(all.take(k as int)); }
        while ci < packet.len()
            invariant
                ci <= packet@.len(),
                p == packet.deep_view(),
                before.len() == channel_count(all.take(k as int)),
                r@.len() == if before.len() >= ci { before.len() as int } else { ci as int },
                forall|c: int| 0 <= c < r@.len() ==> #[trigger] r.deep_view()[c]
                    == (if c < before.len() { before[c] } else { Seq::empty() })
                        + (if c < ci { p[c] } else { Seq::empty() }),
            decreases packet@.len() - ci,
        {
            let ghost r_pre = r@;
            let ghost view_pre = r.deep_view();
            if r.len() <= ci {
                r.push(Vec::new());
                proof { lemma_samples_deep_view(r@[ci as int]); }
            }
            let ghost r_mid = r@;
            let ghost view_mid = r.deep_view();
            assert forall|c: int| 0 <= c < r@.len() implies #[trigger] view_mid[c]
                == (if c < before.len() { before[c] } else { Seq::empty() })
                    + (if c < ci { p[c] } else { Seq::empty() }) by {
                if c < r_pre.len() {
                    assert(r_mid[c] == r_pre[c]);
                    assert(view_mid[c] == view_pre[c]);
                } else {
                    lemma_samples_deep_view(r_mid[c]);
                    assert(view_mid[c] =~= (if c < before.len() { before[c] } else { Seq::empty() })
                        + (if c < ci { p[c] } else { Seq::empty() }));
                }
            }
            let mut channel: Vec<i16> = Vec::new();
            r.set_and_swap(ci, &mut channel);
            let ghost start = channel@;
            proof {
                lemma_samples_deep_view(r_mid[ci as int]);
                assert(start == view_mid[ci as int]);
            }
            let samples = &packet[ci];
            assert(samples@ == p[ci as int]) by {
                assert(p[ci as int] == samples.deep_view());
                lemma_samples_deep_view(*samples);
            }
            let mut j: usize = 0;
            while j < samples.len()
                invariant
                    j <= samples@.len(),
                    channel@ == start + samples@.take(j as int),
                decreases samples@.len() - j,
            {
                channel.push(samples[j]);
                j = j + 1;
                assert(channel@ =~= start + samples@.take(j as int));
            }
            assert(samples@.take(j as int) =~= samples@);
            let mut filled: Vec<i16> = channel;
            r.set_and_swap(ci, &mut filled);
            proof {
                assert(r@ == r_mid.update(ci as int, r@[ci as int]));
                assert forall|c: int| 0 <= c < r@.len() implies #[trigger] r.deep_view()[c]
                    == (if c < before.len() { before[c] } else { Seq::empty() })
                        + (if c < ci + 1 { p[c] } else { Seq::empty() }) by {
                    if c == ci as int {
                        lemma_samples_deep_view(r@[c]);
                        assert(view_mid[c] == (if c < before.len() { before[c] } else { Seq::empty() }) + Seq::<i16>::empty());
                        assert(view_mid[c] + p[c] =~= (if c < before.len() { before[c] } else { Seq::empty() }) + p[c]);
                    } else {
                        assert(r@[c] == r_mid[c]);
                        assert(r.deep_view()[c] == view_mid[c]);
                    }
                }
            }
            ci = ci + 1;
        }
        proof {
            let next = all.take(k as int + 1);
            assert(next.drop_last() =~= all.take(k as int));
            assert(next.last() == p);
            assert(r@.len() == channel_count(next));
            assert forall|c: int| 0 <= c < r@.len() implies #[trigger] r.deep_view()[c] == gathered(next)[c] by {
                assert(gathered(next)[c] == channel_samples(all.take(k as int), c) + if 0 <= c < p.len() { p[c] } else { Seq::empty() });
                if c < before.len() {
                    assert(before[c] == gathered(all.take(k as int))[c]);
                } else {
                    assert(channel_samples(all.take(k as int), c) =~= Seq::empty()) by {
                        lemma_channel_beyond(all.take(k as int), c);
                    }
                    assert(r.deep_view()[c] =~= gathered(next)[c]);
                }
            }
            assert(r.deep_view() =~= gathered(next));
        }
        k = k + 1;
    }
    assert(all.take(k as int) =~= all);
    r
}

/// The sound of an Ogg Vorbis file, one sample list per channel (see
/// `gather_channels`); nothing where the file cannot be decoded (see
/// `ogg_decoded`).
pub fn handle_audio_data_ogg(file_content: &Vec<u8>) -> (r: Option<Vec<Vec<i16>>>)
    ensures
        match ogg_decoded(file_content@) {
            Some(p) => r matches Some(v) && v.deep_view() == gathered(p),
            None => r is None,
        },
{
    match ogg_decode_packets(file_content) {
        Some(packets) => Some(gather_channels(&packets)),
        None => None,
    }
}

/// What `image` decodes from the image file `bytes`: its RGBA pixels, row
/// by row, with its width and height, where it decodes; nothing otherwise.
pub uninterp spec fn png_decoded(bytes: Seq<u8>) -> Option<(Seq<u8>, u32, u32)>;

/// Calls `image::load_from_memory` on `bytes`, converts the image with
/// `to_rgba8` and hands back its raw pixels with its width and height. The
/// contract claims that the result is `png_decoded` of the bytes: the
/// decoding depends on the bytes alone.
#[verifier::external_body]
fn decode_rgba(bytes: &Vec<u8>) -> (r: Option<(Vec<u8>, u32, u32)>)
    ensures
        match r {
            Some(t) => png_decoded(bytes@) == Some((t.0@, t.1, t.2)),
            None => png_decoded(bytes@) is None,
        },
{
    let rgba = image::load_from_memory(bytes.as_slice()).ok()?.to_rgba8();
    let (width, height) = (rgba.width(), rgba.height());
    Some((rgba.into_raw(), width, height))
}

/// The block texture atlas decoded from the image file `data`: its RGBA
/// pixels with its width and height; nothing where it cannot be decoded
/// (see `png_decoded`).
pub fn load_texture_atlasses(data: &Vec<u8>) -> (r: Option<(Vec<u8>, u32, u32)>)
    ensures
        match png_decoded(data@) {
            Some(d) => r matches Some(t) && (t.0@, t.1, t.2) == d,
            None => r is None,
        },
{
    decode_rgba(data)
}

} // verus!
