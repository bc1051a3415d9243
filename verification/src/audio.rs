//! Audio ingestion: demuxing of the audio tracks of a document.

use vstd::prelude::*;
use crate::bytes::{be16, push_all, push_u16, text, views, zeros};
use crate::diag::{CandyError, ErrorView};
use crate::scene::{lemma_seq_view_push, seq_view};
use crate::text::join3;

verus! {

broadcast use lemma_seq_view_push;

/// The longest audio file that is read, in bytes.
pub const MAX_AUDIO_BYTES: u64 = 0x0100_0000_0000_0000;

/// Audio codec carried by an [`AudioData`].
#[derive(Debug, Clone, Copy, PartialEq, Eq, Structural)]
pub enum AudioCodec {
    Opus,
    Aac,
}

/// A single coded audio packet with its placement on the timeline.
#[derive(Debug, Clone)]
pub struct AudioFrame {
    /// Presentation timestamp, milliseconds from clip start.
    pub timestamp_ms: u64,
    /// Duration of the packet, milliseconds.
    pub duration_ms: u64,
    /// Coded packet bytes (Opus page / AAC raw frame).
    pub data: Vec<u8>,
}

/// The value of an [`AudioFrame`].
pub struct AudioFrameView {
    pub timestamp_ms: u64,
    pub duration_ms: u64,
    pub data: Seq<u8>,
}

impl View for AudioFrame {
    type V = AudioFrameView;

    open spec fn view(&self) -> AudioFrameView {
        AudioFrameView {
            timestamp_ms: self.timestamp_ms,
            duration_ms: self.duration_ms,
            data: self.data@,
        }
    }
}

/// Demuxed audio ready for muxing.
#[derive(Debug, Clone)]
pub struct AudioData {
    pub codec: AudioCodec,
    pub sample_rate: u32,
    pub channels: u16,
    /// `CodecPrivate`: OpusHead (Matroska) or AudioSpecificConfig (MP4).
    pub codec_private: Vec<u8>,
    pub frames: Vec<AudioFrame>,
}

/// The value of an [`AudioData`].
pub struct AudioDataView {
    pub codec: AudioCodec,
    pub sample_rate: u32,
    pub channels: u16,
    pub codec_private: Seq<u8>,
    pub frames: Seq<AudioFrameView>,
}

impl View for AudioData {
    type V = AudioDataView;

    open spec fn view(&self) -> AudioDataView {
        AudioDataView {
            codec: self.codec,
            sample_rate: self.sample_rate,
            channels: self.channels,
            codec_private: self.codec_private@,
            frames: self.frames@.map_values(|f: AudioFrame| f@),
        }
    }
}

/// The value of an optional track.
pub open spec fn audio_view(a: Option<&AudioData>) -> Option<AudioDataView> {
    match a {
        Some(a) => Some(a@),
        None => None,
    }
}

// ---------------------------------------------------------------- times

impl AudioDataView {
    /// When the last packet ends.
    pub open spec fn end_ms(self) -> int {
        if self.frames.len() == 0 {
            0
        } else {
            self.frames.last().timestamp_ms + self.frames.last().duration_ms
        }
    }
}

impl AudioData {
    /// End timestamp (ms) of the last packet.
    pub fn end_ms(&self) -> (r: u64)
        requires
            self@.end_ms() <= u64::MAX,
        ensures
            r == self@.end_ms(),
    {
        let n: usize = self.frames.len();
        if n == 0 {
            0
        } else {
            assert(self@.frames.last() == self.frames@[n - 1]@);
            self.frames[n - 1].timestamp_ms + self.frames[n - 1].duration_ms
        }
    }
}

// ---------------------------------------------------------------- telling formats apart

/// Whether the text `lit` stands at place `k` of the bytes.
pub open spec fn marked(b: Seq<u8>, k: int, lit: Seq<char>) -> bool {
    0 <= k && k + text(lit).len() <= b.len() && b.subrange(k, k + text(lit).len()) == text(lit)
}

fn is_marked(b: &[u8], k: usize, lit: &str) -> (r: bool)
    ensures
        r == marked(b@, k as int, lit@),
{
    let w = lit.as_bytes();
    let total: usize = b.len();
    if k > total || total - k < w.len() {
        return false;
    }
    let mut i: usize = 0;
    while i < w.len()
        invariant
            k + w@.len() <= total == b@.len(),
            w@ == text(lit@),
            i <= w@.len(),
            forall|j: int| 0 <= j < i ==> b@[k + j] == w@[j],
        decreases w.len() - i,
    {
        if b[k + i] != w[i] {
            assert(b@.subrange(k as int, k + w@.len())[i as int] != w@[i as int]);
            return false;
        }
        i += 1;
    }
    assert(b@.subrange(k as int, k + w@.len()) =~= w@);
    true
}

/// Whether the bytes are an Ogg file with Opus in it.
pub open spec fn opus_file(b: Seq<u8>) -> bool {
    b.len() > 40 && marked(b, 0, "OggS"@) && exists|k: int| marked(b, k, "OpusHead"@)
}

/// Whether the bytes are an Ogg file with Opus in it.
pub fn is_opus(b: &[u8]) -> (r: bool)
    ensures
        r == opus_file(b@),
{
    if b.len() <= 40 || !is_marked(b, 0, "OggS") {
        return false;
    }
    let mut k: usize = 0;
    while k < b.len()
        invariant
            k <= b@.len(),
            b@.len() > 40,
            marked(b@, 0, "OggS"@),
            forall|j: int| 0 <= j < k ==> !marked(b@, j, "OpusHead"@),
        decreases b.len() - k,
    {
        if is_marked(b, k, "OpusHead") {
            return true;
        }
        k += 1;
    }
    proof {
        reveal_strlit("OpusHead");
        vstd::utf8::is_ascii_chars_encode_utf8("OpusHead"@);
        assert forall|j: int| !marked(b@, j, "OpusHead"@) by {}
    }
    false
}

/// Whether the bytes start with an ADTS header.
pub open spec fn adts_file(b: Seq<u8>) -> bool {
    b.len() >= 4 && b[0] == 0xff && b[1] >= 0xf0
}

/// Whether the bytes start with an ADTS header.
pub fn is_adts(b: &[u8]) -> (r: bool)
    ensures
        r == adts_file(b@),
{
    b.len() >= 4 && b[0] == 0xff && b[1] >= 0xf0
}

// ---------------------------------------------------------------- Ogg

/// The packets of one page from segment `s` on, whose bytes lie from `at` on: those that end in
/// the page, behind the ones before, then one that goes on in another page, and the place behind
/// the page. `None` where a segment reaches past the end.
pub open spec fn laced(
    b: Seq<u8>,
    table: int,
    n: int,
    s: int,
    at: int,
    packets: Seq<Seq<u8>>,
    open: Option<Seq<u8>>,
) -> Option<(Seq<Seq<u8>>, Option<Seq<u8>>, int)>
    decreases n - s,
{
    if s >= n {
        Some((packets, open, at))
    } else {
        let len = b[table + s] as int;
        if at + len > b.len() {
            None
        } else {
            let longer = open_bytes(open) + b.subrange(at, at + len);
            if len < 255 {
                laced(b, table, n, s + 1, at + len, packets.push(longer), None)
            } else {
                laced(b, table, n, s + 1, at + len, packets, Some(longer))
            }
        }
    }
}

/// What there is of a packet so far.
pub open spec fn open_bytes(open: Option<Seq<u8>>) -> Seq<u8> {
    match open {
        Some(p) => p,
        None => Seq::empty(),
    }
}

/// A page is never read backwards.
pub proof fn lemma_laced(
    b: Seq<u8>,
    table: int,
    n: int,
    s: int,
    at: int,
    packets: Seq<Seq<u8>>,
    open: Option<Seq<u8>>,
)
    ensures
        laced(b, table, n, s, at, packets, open) matches Some(x) ==> at <= x.2,
        at <= b.len() ==> (laced(b, table, n, s, at, packets, open) matches Some(x) ==> x.2
            <= b.len()),
    decreases n - s,
{
    if s < n {
        let len = b[table + s] as int;
        if at + len <= b.len() {
            let longer = open_bytes(open) + b.subrange(at, at + len);
            if len < 255 {
                lemma_laced(b, table, n, s + 1, at + len, packets.push(longer), None);
            } else {
                lemma_laced(b, table, n, s + 1, at + len, packets, Some(longer));
            }
        }
    }
}

/// What became of reading the pages of a file.
#[derive(Debug)]
pub enum Pages {
    Packets(Vec<Vec<u8>>),
    /// A segment reaches past the end of the file.
    Truncated,
    /// The file ends inside the header of a page.
    CutHeader,
}

/// The value of a [`Pages`].
pub enum PagesView {
    Packets(Seq<Seq<u8>>),
    Truncated,
    CutHeader,
}

impl View for Pages {
    type V = PagesView;

    open spec fn view(&self) -> PagesView {
        match *self {
            Pages::Packets(p) => PagesView::Packets(views(p@)),
            Pages::Truncated => PagesView::Truncated,
            Pages::CutHeader => PagesView::CutHeader,
        }
    }
}

/// The packets with an unfinished one behind them.
pub open spec fn with_rest(packets: Seq<Seq<u8>>, carry: Option<Seq<u8>>) -> Seq<Seq<u8>> {
    match carry {
        Some(p) => packets.push(p),
        None => packets,
    }
}

/// The packets of the pages from place `i` on. `carry` is a packet that the last page left
/// unfinished.
pub open spec fn paged(
    b: Seq<u8>,
    i: int,
    packets: Seq<Seq<u8>>,
    carry: Option<Seq<u8>>,
) -> PagesView
    decreases b.len() - i,
{
    if i + 26 > b.len() {
        PagesView::Packets(with_rest(packets, carry))
    } else if !marked(b, i, "OggS"@) {
        paged(b, i + 1, packets, carry)
    } else if i + 26 == b.len() {
        PagesView::CutHeader
    } else {
        let n = b[i + 26] as int;
        if i + 27 + n > b.len() {
            PagesView::Packets(with_rest(packets, carry))
        } else {
            let continued = b[i + 5] % 2 == 1;
            let open = if continued {
                carry
            } else {
                None
            };
            proof {
                lemma_laced(b, i + 27, n, 0, i + 27 + n, packets, open);
            }
            match laced(b, i + 27, n, 0, i + 27 + n, packets, open) {
                None => PagesView::Truncated,
                Some((all, Some(rest), end)) => paged(b, end, all, Some(rest)),
                Some((all, None, end)) => paged(
                    b,
                    end,
                    all,
                    if continued {
                        None
                    } else {
                        carry
                    },
                ),
            }
        }
    }
}

/// Puts the packets of a page together.
fn lace(
    b: &[u8],
    table: usize,
    n: usize,
    packets: &mut Vec<Vec<u8>>,
    open: &mut Option<Vec<u8>>,
) -> (r: Option<usize>)
    requires
        table + n <= b@.len(),
    ensures
        ({
            let x = laced(
                b@,
                table as int,
                n as int,
                0,
                table + n,
                views(old(packets)@),
                opt_bytes(*old(open)),
            );
            match r {
                Some(end) => x == Some((views(final(packets)@), opt_bytes(*final(open)), end as int))
                    && table + n <= end <= b@.len() && final(packets)@.len() <= old(packets)@.len()
                    + n,
                None => x is None,
            }
        }),
{
    let total: usize = b.len();
    let mut at: usize = table + n;
    let mut s: usize = 0;
    while s < n
        invariant
            table + n <= total == b@.len(),
            s <= n,
            table + n <= at <= b@.len(),
            packets@.len() <= old(packets)@.len() + s,
            laced(
                b@,
                table as int,
                n as int,
                0,
                table + n,
                views(old(packets)@),
                opt_bytes(*old(open)),
            ) == laced(
                b@,
                table as int,
                n as int,
                s as int,
                at as int,
                views(packets@),
                opt_bytes(*open),
            ),
        decreases n - s,
    {
        let len: usize = b[table + s] as usize;
        if len > total - at {
            return None;
        }
        let ghost before = open_bytes(opt_bytes(*open));
        let mut packet: Vec<u8> = match open.take() {
            Some(p) => p,
            None => Vec::new(),
        };
        assert(packet@ =~= before);
        push_all(&mut packet, vstd::slice::slice_subrange(b, at, at + len));
        at += len;
        if len < 255 {
            let ghost all = packets@;
            packets.push(packet);
            assert(views(packets@) =~= views(all).push(packet@));
        } else {
            *open = Some(packet);
        }
        s += 1;
    }
    Some(at)
}

fn end_packets(packets: Vec<Vec<u8>>, carry: Option<Vec<u8>>) -> (r: Pages)
    ensures
        r@ == PagesView::Packets(with_rest(views(packets@), opt_bytes(carry))),
        r matches Pages::Packets(p) && p@.len() <= packets@.len() + 1,
{
    let mut packets = packets;
    if let Some(p) = carry {
        let ghost before = packets@;
        packets.push(p);
        assert(views(packets@) =~= views(before).push(p@));
    }
    Pages::Packets(packets)
}

/// Puts the packets of an Ogg stream together.
pub fn ogg_packets(b: &[u8]) -> (r: Pages)
    ensures
        r@ == paged(b@, 0, Seq::empty(), None),
        r matches Pages::Packets(p) ==> p@.len() <= b@.len() + 1,
{
    let total: usize = b.len();
    let mut packets: Vec<Vec<u8>> = Vec::new();
    let mut carry: Option<Vec<u8>> = None;
    let mut i: usize = 0;
    assert(views(packets@) =~= Seq::<Seq<u8>>::empty());
    while total >= 26 && i <= total - 26
        invariant
            i <= total == b@.len(),
            packets@.len() <= i,
            paged(b@, 0, Seq::empty(), None) == paged(
                b@,
                i as int,
                views(packets@),
                opt_bytes(carry),
            ),
        decreases total - i,
    {
        if is_marked(b, i, "OggS") {
            if i == total - 26 {
                return Pages::CutHeader;
            }
            let n: usize = b[i + 26] as usize;
            if n > total - i - 27 {
                return end_packets(packets, carry);
            }
            let continued = b[i + 5] % 2 == 1;
            let mut open: Option<Vec<u8>> = None;
            if continued {
                open = carry.take();
            }
            match lace(b, i + 27, n, &mut packets, &mut open) {
                None => {
                    return Pages::Truncated;
                },
                Some(end) => {
                    if open.is_some() {
                        carry = open;
                    }
                    i = end;
                },
            }
        } else {
            i += 1;
        }
    }
    end_packets(packets, carry)
}

/// The value of an optional buffer.
pub open spec fn opt_bytes(v: Option<Vec<u8>>) -> Option<Seq<u8>> {
    match v {
        Some(v) => Some(v@),
        None => None,
    }
}

// ---------------------------------------------------------------- decoding

/// Why a file cannot be used.
#[derive(Debug, Clone, Copy, PartialEq, Eq, Structural)]
pub enum AudioFault {
    /// Neither Ogg with Opus nor ADTS.
    Unsupported,
    /// An Ogg stream without packets.
    MissingHead,
    /// The first packet of an Ogg stream is no Opus header.
    BadHead,
    /// An Ogg segment reaches past the end of the file.
    Truncated,
    /// No ADTS frame was found.
    NoFrames,
    /// A header is cut off, or longer than what it stands in front of.
    Malformed,
}

/// The audio that the packets of an Ogg stream hold: a header, tags, then 20 ms in each packet.
pub open spec fn opus_of(p: Seq<Seq<u8>>) -> Result<AudioDataView, AudioFault> {
    if p.len() == 0 {
        Err(AudioFault::MissingHead)
    } else if p[0].len() < 9 || !marked(p[0], 0, "OpusHead"@) {
        Err(AudioFault::BadHead)
    } else if p[0].len() == 9 {
        Err(AudioFault::Malformed)
    } else {
        Ok(
            AudioDataView {
                codec: AudioCodec::Opus,
                sample_rate: 48000,
                channels: p[0][9] as u16,
                codec_private: p[0],
                frames: Seq::new(
                    if p.len() >= 2 {
                        (p.len() - 2) as nat
                    } else {
                        0
                    },
                    |i: int|
                        AudioFrameView {
                            timestamp_ms: (i * 20) as u64,
                            duration_ms: 20,
                            data: p[i + 2],
                        },
                ),
            },
        )
    }
}

/// The audio of an Ogg file.
pub open spec fn opus_data(b: Seq<u8>) -> Result<AudioDataView, AudioFault> {
    match paged(b, 0, Seq::empty(), None) {
        PagesView::Packets(p) => opus_of(p),
        PagesView::Truncated => Err(AudioFault::Truncated),
        PagesView::CutHeader => Err(AudioFault::Malformed),
    }
}

fn copy_bytes(v: &Vec<u8>) -> (r: Vec<u8>)
    ensures
        r@ == v@,
{
    let mut r: Vec<u8> = Vec::new();
    push_all(&mut r, v.as_slice());
    assert(r@ =~= v@);
    r
}

/// The values of a list of packets.
pub open spec fn frame_views(v: Seq<AudioFrame>) -> Seq<AudioFrameView> {
    v.map_values(|f: AudioFrame| f@)
}

/// Whether no packet ends later than `t`.
pub open spec fn ends_by(s: Seq<AudioFrameView>, t: int) -> bool {
    forall|i: int|
        0 <= i < s.len() ==> (#[trigger] s[i]).timestamp_ms + s[i].duration_ms <= t
}

/// Demuxes an Ogg file with Opus in it.
pub fn parse_opus_ogg(b: &[u8]) -> (r: Result<AudioData, AudioFault>)
    requires
        b@.len() <= MAX_AUDIO_BYTES,
    ensures
        match r {
            Ok(d) => opus_data(b@) == Ok::<AudioDataView, AudioFault>(d@) && ends_by(
                d@.frames,
                0x2000_0000_0000_0000,
            ),
            Err(f) => opus_data(b@) == Err::<AudioDataView, AudioFault>(f),
        },
{
    let packets = match ogg_packets(b) {
        Pages::Packets(p) => p,
        Pages::Truncated => {
            return Err(AudioFault::Truncated);
        },
        Pages::CutHeader => {
            return Err(AudioFault::Malformed);
        },
    };
    let ghost p = views(packets@);
    if packets.len() == 0 {
        return Err(AudioFault::MissingHead);
    }
    let head = &packets[0];
    assert(p[0] == head@);
    if head.len() < 9 || !is_marked(head.as_slice(), 0, "OpusHead") {
        return Err(AudioFault::BadHead);
    }
    if head.len() == 9 {
        return Err(AudioFault::Malformed);
    }
    let channels: u16 = head[9] as u16;
    let codec_private = copy_bytes(head);
    let ghost want = opus_of(p)->Ok_0.frames;
    let mut frames: Vec<AudioFrame> = Vec::new();
    let mut i: usize = 2;
    while i < packets.len()
        invariant
            2 <= i,
            packets@.len() >= 2 ==> i <= packets@.len(),
            p == views(packets@),
            packets@.len() <= MAX_AUDIO_BYTES + 1,
            want.len() == (if p.len() >= 2 {
                p.len() - 2
            } else {
                0
            }),
            forall|k: int|
                0 <= k < want.len() ==> #[trigger] want[k] == (AudioFrameView {
                    timestamp_ms: (k * 20) as u64,
                    duration_ms: 20,
                    data: p[k + 2],
                }),
            packets@.len() >= 2 ==> frames@.len() == i - 2,
            packets@.len() < 2 ==> frames@.len() == 0,
            forall|k: int| 0 <= k < frames@.len() ==> (#[trigger] frames@[k])@ == want[k],
        decreases packets.len() - i,
    {
        assert(p[i as int] == packets@[i as int]@);
        frames.push(
            AudioFrame {
                timestamp_ms: (i - 2) as u64 * 20,
                duration_ms: 20,
                data: copy_bytes(&packets[i]),
            },
        );
        i += 1;
    }
    assert(frame_views(frames@) =~= want);
    let d = AudioData {
        codec: AudioCodec::Opus,
        sample_rate: 48000,
        channels,
        codec_private,
        frames,
    };
    assert(d@ == opus_of(p)->Ok_0);
    Ok(d)
}

// ---------------------------------------------------------------- ADTS

/// The sample rate with the given number; 44100 where there is none.
pub open spec fn sample_rate_of(k: int) -> u32 {
    if k == 0 {
        96000
    } else if k == 1 {
        88200
    } else if k == 2 {
        64000
    } else if k == 3 {
        48000
    } else if k == 4 {
        44100
    } else if k == 5 {
        32000
    } else if k == 6 {
        24000
    } else if k == 7 {
        22050
    } else if k == 8 {
        16000
    } else if k == 9 {
        12000
    } else if k == 10 {
        11025
    } else if k == 11 {
        8000
    } else if k == 12 {
        7350
    } else {
        44100
    }
}

fn find_sample_rate(k: u8) -> (r: u32)
    ensures
        r == sample_rate_of(k as int),
        7350 <= r <= 96000,
{
    match k {
        0 => 96000,
        1 => 88200,
        2 => 64000,
        3 => 48000,
        4 => 44100,
        5 => 32000,
        6 => 24000,
        7 => 22050,
        8 => 16000,
        9 => 12000,
        10 => 11025,
        11 => 8000,
        12 => 7350,
        _ => 44100,
    }
}

/// What the header of an ADTS frame says.
#[derive(Debug, Clone, Copy, PartialEq, Eq, Structural)]
pub struct AdtsHeader {
    pub frame_len: usize,
    pub header_len: usize,
    pub sample_rate: u32,
    pub channels: u16,
    /// The audio-specific configuration of MPEG-4.
    pub config: u16,
}

/// What the header of an ADTS frame says, from its second byte on.
pub open spec fn adts_header(b1: u8, b2: u8, b3: u8, b4: u8, b5: u8) -> AdtsHeader {
    let profile = b2 as int / 64;
    let rate = b2 as int / 4 % 16;
    let channels = b2 as int % 2 * 4 + b3 as int / 64;
    AdtsHeader {
        frame_len: (b3 as int % 4 * 2048 + b4 as int * 8 + b5 as int / 32) as usize,
        header_len: if b1 % 2 == 1 {
            7
        } else {
            9
        },
        sample_rate: sample_rate_of(rate),
        channels: channels as u16,
        config: ((profile + 1) * 2048 + rate * 128 + channels * 8) as u16,
    }
}

fn read_adts_header(b1: u8, b2: u8, b3: u8, b4: u8, b5: u8) -> (r: AdtsHeader)
    ensures
        r == adts_header(b1, b2, b3, b4, b5),
        7350 <= r.sample_rate <= 96000,
        7 <= r.header_len <= 9,
{
    let profile: u16 = b2 as u16 / 64;
    let rate: u8 = b2 / 4 % 16;
    let channels: u16 = b2 as u16 % 2 * 4 + b3 as u16 / 64;
    AdtsHeader {
        frame_len: b3 as usize % 4 * 2048 + b4 as usize * 8 + b5 as usize / 32,
        header_len: if b1 % 2 == 1 {
            7
        } else {
            9
        },
        sample_rate: find_sample_rate(rate),
        channels,
        config: (profile + 1) * 2048 + rate as u16 * 128 + channels * 8,
    }
}

/// How long 1024 samples last, in milliseconds, rounded.
pub open spec fn frame_ms(sample_rate: u32) -> u64 {
    ((1024000 + sample_rate as int / 2) / (sample_rate as int)) as u64
}

/// The ADTS frames from place `i` on, and what the header of the first frame says. `None` where a
/// header is longer than its frame.
pub open spec fn adts_frames(
    b: Seq<u8>,
    i: int,
    out: Seq<AudioFrameView>,
    first: Option<AdtsHeader>,
) -> Option<(Seq<AudioFrameView>, Option<AdtsHeader>)>
    decreases b.len() - i,
{
    if i + 7 > b.len() {
        Some((out, first))
    } else if b[i] != 0xff || b[i + 1] < 0xf0 {
        adts_frames(b, i + 1, out, first)
    } else {
        let h = adts_header(b[i + 1], b[i + 2], b[i + 3], b[i + 4], b[i + 5]);
        if h.frame_len < 7 || i + h.frame_len > b.len() {
            Some((out, first))
        } else if h.header_len > h.frame_len {
            None
        } else {
            adts_frames(
                b,
                i + h.frame_len,
                out.push(
                    AudioFrameView {
                        timestamp_ms: (out.len() * frame_ms(h.sample_rate)) as u64,
                        duration_ms: frame_ms(h.sample_rate),
                        data: b.subrange(i + h.header_len, i + h.frame_len),
                    },
                ),
                if out.len() == 0 {
                    Some(h)
                } else {
                    first
                },
            )
        }
    }
}

/// The audio of an ADTS file.
pub open spec fn adts_data(b: Seq<u8>) -> Result<AudioDataView, AudioFault> {
    match adts_frames(b, 0, Seq::empty(), None) {
        None => Err(AudioFault::Malformed),
        Some((frames, first)) => match first {
            None => Err(AudioFault::NoFrames),
            Some(h) => Ok(
                AudioDataView {
                    codec: AudioCodec::Aac,
                    sample_rate: h.sample_rate,
                    channels: h.channels,
                    codec_private: be16(h.config as int),
                    frames,
                },
            ),
        },
    }
}

/// Demuxes an ADTS file.
pub fn parse_adts_aac(b: &[u8]) -> (r: Result<AudioData, AudioFault>)
    requires
        b@.len() <= MAX_AUDIO_BYTES,
    ensures
        match r {
            Ok(d) => adts_data(b@) == Ok::<AudioDataView, AudioFault>(d@) && ends_by(
                d@.frames,
                0x2000_0000_0000_0000,
            ),
            Err(f) => adts_data(b@) == Err::<AudioDataView, AudioFault>(f),
        },
{
    let total: usize = b.len();
    let mut frames: Vec<AudioFrame> = Vec::new();
    let mut first: Option<AdtsHeader> = None;
    let mut i: usize = 0;
    let mut open = true;
    assert(frame_views(frames@) =~= Seq::<AudioFrameView>::empty());
    while open && total >= 7 && i <= total - 7
        invariant
            i <= total == b@.len() <= MAX_AUDIO_BYTES,
            frames@.len() * 7 <= i,
            ends_by(frame_views(frames@), 0x2000_0000_0000_0000),
            open ==> adts_frames(b@, 0, Seq::empty(), None) == adts_frames(
                b@,
                i as int,
                frame_views(frames@),
                first,
            ),
            !open ==> adts_frames(b@, 0, Seq::empty(), None) == Some((frame_views(frames@), first)),
        decreases
                total - i,
                (if open {
                    1int
                } else {
                    0
                }),
    {
        if b[i] != 0xff || b[i + 1] < 0xf0 {
            i += 1;
        } else {
            let h = read_adts_header(b[i + 1], b[i + 2], b[i + 3], b[i + 4], b[i + 5]);
            if h.frame_len < 7 || h.frame_len > total - i {
                open = false;
            } else if h.header_len > h.frame_len {
                return Err(AudioFault::Malformed);
            } else {
                let count: u64 = frames.len() as u64;
                let wide: u64 = h.sample_rate as u64;
                let ms: u64 = (1024000 + wide / 2) / wide;
                proof {
                    lemma_frame_ms(h.sample_rate);
                    assert(count * ms <= count * 140) by (nonlinear_arith)
                        requires
                            ms <= 140,
                    ;
                }
                let mut data: Vec<u8> = Vec::new();
                push_all(
                    &mut data,
                    vstd::slice::slice_subrange(b, i + h.header_len, i + h.frame_len),
                );
                assert(data@ =~= b@.subrange(i + h.header_len, i + h.frame_len));
                if frames.len() == 0 {
                    first = Some(h);
                }
                let f = AudioFrame { timestamp_ms: count * ms, duration_ms: ms, data };
                let ghost before = frames@;
                frames.push(f);
                assert(frame_views(frames@) =~= frame_views(before).push(f@));
                i += h.frame_len;
            }
        }
    }
    match first {
        None => Err(AudioFault::NoFrames),
        Some(h) => {
            let mut codec_private: Vec<u8> = Vec::new();
            push_u16(&mut codec_private, h.config);
            assert(codec_private@ =~= be16(h.config as int));
            Ok(
                AudioData {
                    codec: AudioCodec::Aac,
                    sample_rate: h.sample_rate,
                    channels: h.channels,
                    codec_private,
                    frames,
                },
            )
        },
    }
}

proof fn lemma_frame_ms(sample_rate: u32)
    requires
        7350 <= sample_rate <= 96000,
    ensures
        (1024000 + sample_rate as int / 2) / (sample_rate as int) <= 140,
{
    let r = sample_rate as int;
    let n = 1024000 + r / 2;
    assert(n <= 140 * r);
    assert(n / r <= 140) by (nonlinear_arith)
        requires
            n <= 140 * r,
            r > 0,
    ;
}

// ---------------------------------------------------------------- slices and loops

/// The packets that are heard between `from` and `to`.
pub open spec fn heard(s: Seq<AudioFrameView>, from: u64, to: u64) -> Seq<AudioFrameView>
    decreases s.len(),
{
    if s.len() == 0 {
        Seq::empty()
    } else {
        let f = s.last();
        let rest = heard(s.drop_last(), from, to);
        if f.timestamp_ms + f.duration_ms > from && f.timestamp_ms < to {
            rest.push(f)
        } else {
            rest
        }
    }
}

/// The packets with the first one at time 0.
pub open spec fn rezeroed(s: Seq<AudioFrameView>) -> Seq<AudioFrameView> {
    s.map_values(
        |f: AudioFrameView|
            AudioFrameView {
                timestamp_ms: if f.timestamp_ms >= s[0].timestamp_ms {
                    (f.timestamp_ms - s[0].timestamp_ms) as u64
                } else {
                    0
                },
                ..f
            },
    )
}

/// The packets moved to later times.
pub open spec fn delayed(s: Seq<AudioFrameView>, by: int) -> Seq<AudioFrameView> {
    s.map_values(
        |f: AudioFrameView| AudioFrameView { timestamp_ms: (f.timestamp_ms + by) as u64, ..f },
    )
}

/// The packets of a track: a part of them, where only that is played, and twice where they are
/// looped.
pub open spec fn arranged(
    s: Seq<AudioFrameView>,
    slice: Option<(u64, u64)>,
    looped: bool,
) -> Seq<AudioFrameView> {
    let t = match slice {
        Some((from, to)) => rezeroed(heard(s, from, to)),
        None => s,
    };
    if looped && t.len() > 0 {
        t + delayed(t, t.last().timestamp_ms + t.last().duration_ms)
    } else {
        t
    }
}

/// Takes a packet out of the list.
fn take_frame(v: &mut Vec<AudioFrame>, i: usize) -> (r: AudioFrame)
    requires
        i < old(v)@.len(),
    ensures
        r == old(v)@[i as int],
        final(v)@.len() == old(v)@.len(),
        forall|j: int| 0 <= j < old(v)@.len() && j != i ==> #[trigger] final(v)@[j] == old(v)@[j],
{
    let mut r = AudioFrame { timestamp_ms: 0, duration_ms: 0, data: Vec::new() };
    std::mem::swap(&mut r, &mut v[i]);
    r
}

proof fn lemma_heard_ends(s: Seq<AudioFrameView>, from: u64, to: u64, t: int)
    requires
        ends_by(s, t),
    ensures
        ends_by(heard(s, from, to), t),
    decreases s.len(),
{
    if s.len() > 0 {
        assert forall|i: int| 0 <= i < s.drop_last().len() implies (
        #[trigger] s.drop_last()[i]).timestamp_ms + s.drop_last()[i].duration_ms <= t by {
            assert(s.drop_last()[i] == s[i]);
        }
        lemma_heard_ends(s.drop_last(), from, to, t);
        assert(s[s.len() - 1] == s.last());
    }
}

fn cut(frames: &mut Vec<AudioFrame>, from: u64, to: u64) -> (r: Vec<AudioFrame>)
    requires
        ends_by(frame_views(old(frames)@), 0x2000_0000_0000_0000),
    ensures
        frame_views(r@) == rezeroed(heard(frame_views(old(frames)@), from, to)),
        ends_by(frame_views(r@), 0x2000_0000_0000_0000),
{
    let ghost s = frame_views(frames@);
    let mut r: Vec<AudioFrame> = Vec::new();
    let mut i: usize = 0;
    assert(s.take(0) =~= Seq::<AudioFrameView>::empty());
    assert(frame_views(r@) =~= heard(s.take(0), from, to));
    while i < frames.len()
        invariant
            i <= frames@.len(),
            frames@.len() == s.len(),
            s == frame_views(old(frames)@),
            ends_by(s, 0x2000_0000_0000_0000),
            forall|j: int| i <= j < s.len() ==> (#[trigger] frames@[j])@ == s[j],
            frame_views(r@) == heard(s.take(i as int), from, to),
        decreases frames.len() - i,
    {
        assert(s.take(i + 1).drop_last() =~= s.take(i as int));
        assert(frames@[i as int]@ == s[i as int]);
        let f = take_frame(frames, i);
        if f.timestamp_ms + f.duration_ms > from && f.timestamp_ms < to {
            let ghost before = r@;
            r.push(f);
            assert(frame_views(r@) =~= frame_views(before).push(f@));
        }
        i += 1;
    }
    assert(s.take(s.len() as int) =~= s);
    let ghost h = heard(s, from, to);
    proof {
        lemma_heard_ends(s, from, to, 0x2000_0000_0000_0000);
    }
    if r.len() > 0 {
        let shift: u64 = r[0].timestamp_ms;
        assert(shift == h[0].timestamp_ms);
        let mut k: usize = 0;
        while k < r.len()
            invariant
                k <= r@.len(),
                r@.len() == h.len(),
                h.len() > 0,
                shift == h[0].timestamp_ms,
                forall|j: int| 0 <= j < k ==> (#[trigger] r@[j])@ == rezeroed(h)[j],
                forall|j: int| k <= j < h.len() ==> (#[trigger] r@[j])@ == h[j],
            decreases r.len() - k,
        {
            assert(r@[k as int]@ == h[k as int]);
            let t: u64 = r[k].timestamp_ms;
            r[k].timestamp_ms = if t >= shift {
                t - shift
            } else {
                0
            };
            assert(r@[k as int]@ == rezeroed(h)[k as int]);
            k += 1;
        }
    }
    assert(frame_views(r@) =~= rezeroed(h));
    proof {
        assert forall|j: int| 0 <= j < rezeroed(h).len() implies (
        #[trigger] rezeroed(h)[j]).timestamp_ms + rezeroed(h)[j].duration_ms
            <= 0x2000_0000_0000_0000 by {
            assert(h[j].timestamp_ms + h[j].duration_ms <= 0x2000_0000_0000_0000);
        }
    }
    r
}

fn arrange(frames: Vec<AudioFrame>, slice: Option<(u64, u64)>, looped: bool) -> (r: Vec<
    AudioFrame,
>)
    requires
        ends_by(frame_views(frames@), 0x2000_0000_0000_0000),
    ensures
        frame_views(r@) == arranged(frame_views(frames@), slice, looped),
        ends_by(frame_views(r@), 0x4000_0000_0000_0000),
{
    let ghost s = frame_views(frames@);
    let mut frames = frames;
    let mut r: Vec<AudioFrame> = match slice {
        Some((from, to)) => cut(&mut frames, from, to),
        None => frames,
    };
    let ghost t = frame_views(r@);
    let n: usize = r.len();
    if looped && n > 0 {
        assert(t[n - 1] == r@[n - 1]@);
        let base: u64 = r[n - 1].timestamp_ms + r[n - 1].duration_ms;
        let ghost d = delayed(t, base as int);
        let mut i: usize = 0;
        while i < n
            invariant
                i <= n,
                n == t.len(),
                r@.len() == n + i,
                base <= 0x2000_0000_0000_0000,
                ends_by(t, 0x2000_0000_0000_0000),
                d == delayed(t, base as int),
                forall|j: int| 0 <= j < n ==> (#[trigger] r@[j])@ == t[j],
                forall|j: int| n <= j < n + i ==> (#[trigger] r@[j])@ == d[j - n],
            decreases n - i,
        {
            assert(r@[i as int]@ == t[i as int]);
            let f = AudioFrame {
                timestamp_ms: r[i].timestamp_ms + base,
                duration_ms: r[i].duration_ms,
                data: copy_bytes(&r[i].data),
            };
            assert(f@ == d[i as int]);
            r.push(f);
            i += 1;
        }
        assert(frame_views(r@) =~= t + d);
        proof {
            let all = t + d;
            assert forall|j: int| 0 <= j < all.len() implies (#[trigger] all[j]).timestamp_ms
                + all[j].duration_ms <= 0x4000_0000_0000_0000 by {
                if j < n {
                    assert(all[j] == t[j]);
                } else {
                    assert(all[j] == d[j - n]);
                    assert(t[j - n].timestamp_ms + t[j - n].duration_ms <= 0x2000_0000_0000_0000);
                }
            }
        }
    }
    r
}

// ---------------------------------------------------------------- tracks

/// The audio of a file.
pub open spec fn decoded(b: Seq<u8>) -> Result<AudioDataView, AudioFault> {
    if opus_file(b) {
        opus_data(b)
    } else if adts_file(b) {
        adts_data(b)
    } else {
        Err(AudioFault::Unsupported)
    }
}

/// Whether a header of the file is cut off, or longer than what it stands in front of.
pub open spec fn malformed(b: Seq<u8>) -> bool {
    decoded(b) == Err::<AudioDataView, AudioFault>(AudioFault::Malformed)
}

fn decode(b: &[u8]) -> (r: Result<AudioData, AudioFault>)
    requires
        b@.len() <= MAX_AUDIO_BYTES,
    ensures
        match r {
            Ok(d) => decoded(b@) == Ok::<AudioDataView, AudioFault>(d@) && ends_by(
                d@.frames,
                0x2000_0000_0000_0000,
            ),
            Err(f) => decoded(b@) == Err::<AudioDataView, AudioFault>(f),
        },
{
    if is_opus(b) {
        parse_opus_ogg(b)
    } else if is_adts(b) {
        parse_adts_aac(b)
    } else {
        Err(AudioFault::Unsupported)
    }
}

/// Whether a header of the file is cut off, or longer than what it stands in front of.
pub fn is_malformed(b: &[u8]) -> (r: bool)
    requires
        b@.len() <= MAX_AUDIO_BYTES,
    ensures
        r == malformed(b@),
{
    match decode(b) {
        Err(AudioFault::Malformed) => true,
        _ => false,
    }
}

/// The error that a fault of the file at `path` stands for.
pub open spec fn audio_error(path: Seq<char>, f: AudioFault) -> ErrorView {
    ErrorView::Encode(
        match f {
            AudioFault::Unsupported => "unsupported audio format for '"@ + path
                + "' (E007): candy supports Opus (.opus/.ogg) and AAC/ADTS (.aac). Other formats are attached as files, not muxed."@,
            AudioFault::MissingHead => "Ogg/Opus: missing OpusHead (E007)"@,
            AudioFault::BadHead => "Ogg/Opus: bad OpusHead (E007)"@,
            AudioFault::Truncated => "Ogg: truncated segment (E007)"@,
            AudioFault::NoFrames => "ADTS AAC: no frames found (E007)"@,
            AudioFault::Malformed => ""@,
        },
    )
}

/// The audio of a track whose file holds `b`.
pub open spec fn audio_parsed(
    path: Seq<char>,
    b: Seq<u8>,
    slice: Option<(u64, u64)>,
    looped: bool,
) -> Result<AudioDataView, ErrorView> {
    match decoded(b) {
        Err(f) => Err(audio_error(path, f)),
        Ok(d) => Ok(AudioDataView { frames: arranged(d.frames, slice, looped), ..d }),
    }
}

/// Reads the audio of a track whose file holds `b`. `slice` is the part that is played, in
/// milliseconds; a looped track is played twice.
pub fn parse_audio(path: &str, b: &[u8], slice: Option<(u64, u64)>, looped: bool) -> (r: Result<
    AudioData,
    CandyError,
>)
    requires
        b@.len() <= MAX_AUDIO_BYTES,
        !malformed(b@),
    ensures
        match r {
            Ok(d) => audio_parsed(path@, b@, slice, looped) == Ok::<AudioDataView, ErrorView>(d@)
                && ends_by(d@.frames, 0x4000_0000_0000_0000),
            Err(e) => audio_parsed(path@, b@, slice, looped) == Err::<AudioDataView, ErrorView>(
                e@,
            ),
        },
{
    match decode(b) {
        Err(f) => {
            let message = match f {
                AudioFault::Unsupported => join3(
                    "unsupported audio format for '",
                    path,
                    "' (E007): candy supports Opus (.opus/.ogg) and AAC/ADTS (.aac). Other formats are attached as files, not muxed.",
                ),
                AudioFault::MissingHead => "Ogg/Opus: missing OpusHead (E007)".to_owned(),
                AudioFault::BadHead => "Ogg/Opus: bad OpusHead (E007)".to_owned(),
                AudioFault::Truncated => "Ogg: truncated segment (E007)".to_owned(),
                AudioFault::NoFrames => "ADTS AAC: no frames found (E007)".to_owned(),
                AudioFault::Malformed => "".to_owned(),
            };
            Err(CandyError::Encode(message))
        },
        Ok(d) => {
            let ghost dv = d@;
            let codec = d.codec;
            let sample_rate: u32 = d.sample_rate;
            let channels: u16 = d.channels;
            let codec_private = d.codec_private;
            let frames = arrange(d.frames, slice, looped);
            let r = AudioData { codec, sample_rate, channels, codec_private, frames };
            assert(r@ == AudioDataView { frames: arranged(dv.frames, slice, looped), ..dv });
            Ok(r)
        },
    }
}

/// An audio track whose file was read.
#[derive(Debug)]
pub struct LoadedTrack {
    pub path: String,
    /// When the track starts.
    pub start_ms: u32,
    /// What the file holds, if it could be read.
    pub bytes: Option<Vec<u8>>,
    /// The part that is played, in milliseconds.
    pub slice: Option<(u64, u64)>,
    pub looped: bool,
}

/// The value of a [`LoadedTrack`].
pub struct LoadedView {
    pub path: Seq<char>,
    pub start_ms: u32,
    pub bytes: Option<Seq<u8>>,
    pub slice: Option<(u64, u64)>,
    pub looped: bool,
}

impl View for LoadedTrack {
    type V = LoadedView;

    open spec fn view(&self) -> LoadedView {
        LoadedView {
            path: self.path@,
            start_ms: self.start_ms,
            bytes: opt_bytes(self.bytes),
            slice: self.slice,
            looped: self.looped,
        }
    }
}

/// The audio of a track, at its place on the timeline; `None` where it cannot be used.
pub open spec fn track_audio(t: LoadedView) -> Option<AudioDataView> {
    match t.bytes {
        None => None,
        Some(b) => match audio_parsed(t.path, b, t.slice, t.looped) {
            Err(_) => None,
            Ok(d) => Some(AudioDataView { frames: delayed(d.frames, t.start_ms as int), ..d }),
        },
    }
}

/// The audio of all tracks together, and the warnings about those that are left out: the codec
/// of the first usable track counts.
pub open spec fn collected(s: Seq<LoadedView>) -> (Option<AudioDataView>, Seq<
    crate::diag::WarnView,
>)
    decreases s.len(),
{
    if s.len() == 0 {
        (None, Seq::empty())
    } else {
        let (merged, warnings) = collected(s.drop_last());
        let t = s.last();
        match (merged, track_audio(t)) {
            (_, None) => (
                merged,
                warnings.push(
                    crate::diag::WarnView::AudioDropped(
                        "'"@ + t.path + "' unsupported format"@,
                    ),
                ),
            ),
            (None, Some(d)) => (Some(d), warnings),
            (Some(m), Some(d)) => if m.codec != d.codec {
                (
                    merged,
                    warnings.push(
                        crate::diag::WarnView::AudioDropped(
                            "'"@ + t.path + "' codec differs from first track"@,
                        ),
                    ),
                )
            } else {
                (Some(AudioDataView { frames: m.frames + d.frames, ..m }), warnings)
            },
        }
    }
}

/// The value of an optional track that is owned.
pub open spec fn opt_audio(a: Option<AudioData>) -> Option<AudioDataView> {
    match a {
        Some(a) => Some(a@),
        None => None,
    }
}

fn load_track(t: &LoadedTrack) -> (r: Option<AudioData>)
    requires
        t@.bytes matches Some(b) ==> b.len() <= MAX_AUDIO_BYTES && !malformed(b),
    ensures
        opt_audio(r) == track_audio(t@),
{
    let b = match &t.bytes {
        None => {
            return None;
        },
        Some(b) => b,
    };
    match parse_audio(t.path.as_str(), b.as_slice(), t.slice, t.looped) {
        Err(_) => None,
        Ok(d) => {
            let mut d = d;
            let ghost dv = d@;
            let ghost want = delayed(dv.frames, t.start_ms as int);
            let off: u64 = t.start_ms as u64;
            let mut i: usize = 0;
            while i < d.frames.len()
                invariant
                    i <= d.frames@.len(),
                    d.frames@.len() == dv.frames.len(),
                    ends_by(dv.frames, 0x4000_0000_0000_0000),
                    off == t.start_ms,
                    want == delayed(dv.frames, t.start_ms as int),
                    d.codec == dv.codec,
                    d.sample_rate == dv.sample_rate,
                    d.channels == dv.channels,
                    d.codec_private@ == dv.codec_private,
                    forall|j: int| 0 <= j < i ==> (#[trigger] d.frames@[j])@ == want[j],
                    forall|j: int|
                        i <= j < dv.frames.len() ==> (#[trigger] d.frames@[j])@ == dv.frames[j],
                decreases d.frames.len() - i,
            {
                assert(d.frames@[i as int]@ == dv.frames[i as int]);
                let at: u64 = d.frames[i].timestamp_ms;
                d.frames[i].timestamp_ms = at + off;
                assert(d.frames@[i as int]@ == want[i as int]);
                i += 1;
            }
            assert(frame_views(d.frames@) =~= want);
            Some(d)
        },
    }
}

/// Reads every track and puts them together. The codec of the first usable track counts; tracks
/// with another codec are left out with a warning.
pub fn collect_audio(tracks: &Vec<LoadedTrack>) -> (r: (Option<AudioData>, Vec<
    crate::diag::CandyWarn,
>))
    requires
        forall|i: int|
            0 <= i < tracks@.len() ==> ((#[trigger] tracks@[i])@.bytes matches Some(b) ==> b.len()
                <= MAX_AUDIO_BYTES && !malformed(b)),
    ensures
        (opt_audio(r.0), seq_view(r.1@)) == collected(seq_view(tracks@)),
{
    let ghost s = seq_view(tracks@);
    let mut merged: Option<AudioData> = None;
    let mut warnings: Vec<crate::diag::CandyWarn> = Vec::new();
    let mut i: usize = 0;
    assert(s.take(0) =~= Seq::<LoadedView>::empty());
    assert(seq_view(warnings@) =~= Seq::<crate::diag::WarnView>::empty());
    while i < tracks.len()
        invariant
            i <= tracks@.len(),
            s == seq_view(tracks@),
            forall|j: int|
                0 <= j < tracks@.len() ==> ((#[trigger] tracks@[j])@.bytes matches Some(b)
                    ==> b.len() <= MAX_AUDIO_BYTES && !malformed(b)),
            (opt_audio(merged), seq_view(warnings@)) == collected(s.take(i as int)),
        decreases tracks.len() - i,
    {
        assert(s.take(i + 1).drop_last() =~= s.take(i as int));
        assert(s[i as int] == tracks@[i as int]@);
        let path = tracks[i].path.as_str();
        match load_track(&tracks[i]) {
            None => {
                let text = join3("'", path, "' unsupported format");
                warnings.push(crate::diag::CandyWarn::AudioDropped(text));
            },
            Some(d) => {
                let same_codec = match &merged {
                    None => true,
                    Some(m) => m.codec == d.codec,
                };
                if !same_codec {
                    let text = join3("'", path, "' codec differs from first track");
                    warnings.push(crate::diag::CandyWarn::AudioDropped(text));
                } else {
                    merged = match merged {
                        None => Some(d),
                        Some(m) => Some(append_frames(m, d.frames)),
                    };
                }
            },
        }
        i += 1;
    }
    assert(s.take(s.len() as int) =~= s);
    (merged, warnings)
}

fn append_frames(m: AudioData, more: Vec<AudioFrame>) -> (r: AudioData)
    ensures
        r@ == (AudioDataView { frames: m@.frames + frame_views(more@), ..m@ }),
{
    let mut m = m;
    let mut more = more;
    let ghost a = m.frames@;
    let ghost b = more@;
    m.frames.append(&mut more);
    assert(m@.frames =~= frame_views(a) + frame_views(b));
    m
}

// ---------------------------------------------------------------- laws

/// A part of a track starts at time 0.
pub proof fn law_slice_starts_at_zero(s: Seq<AudioFrameView>, from: u64, to: u64)
    requires
        heard(s, from, to).len() > 0,
    ensures
        arranged(s, Some((from, to)), false)[0].timestamp_ms == 0,
{
}

/// What is kept of a track is heard between the two times.
pub proof fn law_slice_keeps_what_is_heard(s: Seq<AudioFrameView>, from: u64, to: u64, k: int)
    requires
        0 <= k < heard(s, from, to).len(),
    ensures
        s.contains(heard(s, from, to)[k]),
        heard(s, from, to)[k].timestamp_ms + heard(s, from, to)[k].duration_ms > from,
        heard(s, from, to)[k].timestamp_ms < to,
    decreases s.len(),
{
    if s.len() > 0 {
        let f = s.last();
        assert(s[s.len() - 1] == f);
        if k < heard(s.drop_last(), from, to).len() {
            law_slice_keeps_what_is_heard(s.drop_last(), from, to, k);
            let h = heard(s.drop_last(), from, to)[k];
            let j = choose|j: int| 0 <= j < s.drop_last().len() && s.drop_last()[j] == h;
            assert(s[j] == h);
        }
    }
}

/// A looped track is heard once more, from where it ends the first time.
pub proof fn law_loop_plays_twice(s: Seq<AudioFrameView>, slice: Option<(u64, u64)>)
    requires
        ends_by(arranged(s, slice, false), 0x2000_0000_0000_0000),
    ensures
        ({
            let once = arranged(s, slice, false);
            let twice = arranged(s, slice, true);
            &&& twice.len() == 2 * once.len()
            &&& forall|i: int|
                0 <= i < once.len() ==> #[trigger] twice[i] == once[i] && twice[once.len()
                    + i].data == once[i].data && twice[once.len() + i].duration_ms
                    == once[i].duration_ms && twice[once.len() + i].timestamp_ms
                    == once[i].timestamp_ms + once.last().timestamp_ms + once.last().duration_ms
        }),
{
    let once = arranged(s, slice, false);
    let twice = arranged(s, slice, true);
    if once.len() > 0 {
        let base = once.last().timestamp_ms + once.last().duration_ms;
        assert(once[once.len() - 1] == once.last());
        let d = delayed(once, base);
        assert(twice == once + d);
        assert forall|i: int| 0 <= i < once.len() implies #[trigger] twice[i] == once[i]
            && twice[once.len() + i].data == once[i].data && twice[once.len() + i].duration_ms
            == once[i].duration_ms && twice[once.len() + i].timestamp_ms == once[i].timestamp_ms + once.last().timestamp_ms + once.last().duration_ms by {
            assert(twice[once.len() + i] == d[i]);
            assert(once[i].timestamp_ms + once[i].duration_ms <= 0x2000_0000_0000_0000);
        }
    }
}

/// Each packet of an Opus stream starts where the one before it ends.
pub proof fn law_opus_packets_follow(p: Seq<Seq<u8>>, i: int)
    requires
        opus_of(p) is Ok,
        p.len() <= MAX_AUDIO_BYTES,
        0 <= i < opus_of(p)->Ok_0.frames.len() - 1,
    ensures
        ({
            let f = opus_of(p)->Ok_0.frames;
            f[i].timestamp_ms + f[i].duration_ms == f[i + 1].timestamp_ms
        }),
{
}

/// All tracks that are put together have the codec of the first usable one, and a later track
/// changes nothing of the packets before it.
pub proof fn law_first_codec_counts(s: Seq<LoadedView>, t: LoadedView)
    requires
        collected(s).0 is Some,
    ensures
        collected(s.push(t)).0 matches Some(m) && m.codec == collected(s).0->0.codec
            && m.codec_private == collected(s).0->0.codec_private && m.frames.len()
            >= collected(s).0->0.frames.len() && m.frames.take(
            collected(s).0->0.frames.len() as int,
        ) == collected(s).0->0.frames,
{
    assert(s.push(t).drop_last() =~= s);
    let before = collected(s).0->0.frames;
    assert(before.take(before.len() as int) =~= before);
    match track_audio(t) {
        Some(d) => {
            assert((before + d.frames).take(before.len() as int) =~= before);
        },
        None => {},
    }
}

/// The lacing values of a packet of `n` bytes.
pub open spec fn lacing(n: nat) -> Seq<u8>
    decreases n,
{
    if n < 255 {
        seq![n as u8]
    } else {
        seq![255u8] + lacing((n - 255) as nat)
    }
}

/// The segment table of a page that holds the given packets.
pub open spec fn segment_table(ps: Seq<Seq<u8>>) -> Seq<u8>
    decreases ps.len(),
{
    if ps.len() == 0 {
        Seq::empty()
    } else {
        lacing(ps[0].len()) + segment_table(ps.skip(1))
    }
}

/// The payload of a page that holds the given packets.
pub open spec fn page_payload(ps: Seq<Seq<u8>>) -> Seq<u8>
    decreases ps.len(),
{
    if ps.len() == 0 {
        Seq::empty()
    } else {
        ps[0] + page_payload(ps.skip(1))
    }
}

/// A page that holds the given packets whole.
pub open spec fn ogg_page(ps: Seq<Seq<u8>>) -> Seq<u8> {
    text("OggS"@) + zeros(22) + seq![segment_table(ps).len() as u8] + segment_table(ps)
        + page_payload(ps)
}

/// Pages one after the other.
pub open spec fn ogg_stream(pages: Seq<Seq<Seq<u8>>>) -> Seq<u8>
    decreases pages.len(),
{
    if pages.len() == 0 {
        Seq::empty()
    } else {
        ogg_page(pages[0]) + ogg_stream(pages.skip(1))
    }
}

/// The packets of all pages, in order.
pub open spec fn all_packets(pages: Seq<Seq<Seq<u8>>>) -> Seq<Seq<u8>>
    decreases pages.len(),
{
    if pages.len() == 0 {
        Seq::empty()
    } else {
        pages[0] + all_packets(pages.skip(1))
    }
}

proof fn lemma_lace_one(
    b: Seq<u8>,
    table: int,
    n: int,
    s: int,
    at: int,
    packets: Seq<Seq<u8>>,
    open: Option<Seq<u8>>,
    r: Seq<u8>,
)
    requires
        0 <= s,
        0 <= table,
        0 <= at,
        s + lacing(r.len()).len() <= n,
        table + n <= b.len(),
        b.subrange(table + s, table + s + lacing(r.len()).len()) == lacing(r.len()),
        at + r.len() <= b.len(),
        b.subrange(at, at + r.len()) == r,
    ensures
        lacing(r.len()).len() > 0,
        laced(b, table, n, s, at, packets, open) == laced(
            b,
            table,
            n,
            s + lacing(r.len()).len(),
            at + r.len(),
            packets.push(open_bytes(open) + r),
            None,
        ),
    decreases r.len(),
{
    let l = lacing(r.len());
    assert(b.subrange(table + s, table + s + l.len())[0] == b[table + s]);
    if r.len() >= 255 {
        let rest = r.skip(255);
        let k = lacing(rest.len());
        let longer = open_bytes(open) + b.subrange(at, at + 255);
        assert(l == seq![255u8] + k);
        assert(b.subrange(table + s + 1, table + s + 1 + k.len()) =~= k) by {
            assert forall|x: int| 0 <= x < k.len() implies b[table + s + 1 + x] == k[x] by {
                assert(b.subrange(table + s, table + s + l.len())[x + 1] == l[x + 1]);
            }
        }
        assert(b.subrange(at + 255, at + r.len()) =~= rest) by {
            assert forall|x: int| 0 <= x < rest.len() implies b[at + 255 + x] == rest[x] by {
                assert(b.subrange(at, at + r.len())[x + 255] == r[x + 255]);
            }
        }
        lemma_lace_one(b, table, n, s + 1, at + 255, packets, Some(longer), rest);
        assert(b.subrange(at, at + 255) =~= r.take(255)) by {
            assert forall|x: int| 0 <= x < 255 implies b[at + x] == r[x] by {
                assert(b.subrange(at, at + r.len())[x] == r[x]);
            }
        }
        assert(longer + rest =~= open_bytes(open) + r);
    }
}

proof fn lemma_lace_page(
    b: Seq<u8>,
    table: int,
    n: int,
    s: int,
    at: int,
    packets: Seq<Seq<u8>>,
    ps: Seq<Seq<u8>>,
)
    requires
        0 <= s,
        0 <= table,
        0 <= at,
        s + segment_table(ps).len() == n,
        table + n <= b.len(),
        b.subrange(table + s, table + n) == segment_table(ps),
        at + page_payload(ps).len() <= b.len(),
        b.subrange(at, at + page_payload(ps).len()) == page_payload(ps),
    ensures
        laced(b, table, n, s, at, packets, None) == Some(
            (packets + ps, None::<Seq<u8>>, at + page_payload(ps).len()),
        ),
    decreases ps.len(),
{
    if ps.len() == 0 {
        assert(packets + ps =~= packets);
    } else {
        let p = ps[0];
        let rest = ps.skip(1);
        let l = lacing(p.len());
        let t = segment_table(ps);
        let w = page_payload(ps);
        assert(b.subrange(table + s, table + s + l.len()) =~= l) by {
            assert forall|x: int| 0 <= x < l.len() implies b[table + s + x] == l[x] by {
                assert(b.subrange(table + s, table + n)[x] == t[x]);
            }
        }
        assert(b.subrange(at, at + p.len()) =~= p) by {
            assert forall|x: int| 0 <= x < p.len() implies b[at + x] == p[x] by {
                assert(b.subrange(at, at + w.len())[x] == w[x]);
            }
        }
        lemma_lace_one(b, table, n, s, at, packets, None, p);
        let s2 = s + l.len();
        let at2 = at + p.len();
        assert(b.subrange(table + s2, table + n) =~= segment_table(rest)) by {
            let k = segment_table(rest);
            assert forall|x: int| 0 <= x < k.len() implies b[table + s2 + x] == k[x] by {
                assert(b.subrange(table + s, table + n)[l.len() + x] == t[l.len() + x]);
            }
        }
        assert(b.subrange(at2, at2 + page_payload(rest).len()) =~= page_payload(rest)) by {
            let k = page_payload(rest);
            assert forall|x: int| 0 <= x < k.len() implies b[at2 + x] == k[x] by {
                assert(b.subrange(at, at + w.len())[p.len() + x] == w[p.len() + x]);
            }
        }
        let longer = packets.push(p);
        assert(open_bytes(None) + p =~= p);
        lemma_lace_page(b, table, n, s2 as int, at2 as int, longer, rest);
        assert(longer + rest =~= packets + ps);
    }
}

proof fn lemma_pages(front: Seq<u8>, packets: Seq<Seq<u8>>, pages: Seq<Seq<Seq<u8>>>)
    requires
        forall|i: int| 0 <= i < pages.len() ==> segment_table(#[trigger] pages[i]).len() <= 255,
    ensures
        paged(front + ogg_stream(pages), front.len() as int, packets, None) == PagesView::Packets(
            packets + all_packets(pages),
        ),
    decreases pages.len(),
{
    let b = front + ogg_stream(pages);
    let i = front.len() as int;
    if pages.len() == 0 {
        assert(packets + all_packets(pages) =~= packets);
    } else {
        let ps = pages[0];
        let rest = pages.skip(1);
        let n = segment_table(ps).len() as int;
        let page = ogg_page(ps);
        let next = front + page;
        assert(segment_table(pages[0]).len() <= 255);
        reveal_strlit("OggS");
        vstd::utf8::is_ascii_chars_encode_utf8("OggS"@);
        assert(text("OggS"@).len() == 4);
        assert(b =~= next + ogg_stream(rest));
        assert(page.len() == 27 + n + page_payload(ps).len());
        assert forall|x: int| 0 <= x < page.len() implies b[i + x] == page[x] by {}
        assert(b.subrange(i, i + 4) =~= text("OggS"@));
        assert(marked(b, i, "OggS"@));
        assert(b[i + 26] == n);
        assert(b[i + 5] == 0);
        assert(b.subrange(i + 27, i + 27 + n) =~= segment_table(ps));
        let at = i + 27 + n;
        assert(b.subrange(at, at + page_payload(ps).len()) =~= page_payload(ps));
        lemma_lace_page(b, i + 27, n, 0, at, packets, ps);
        assert forall|k: int| 0 <= k < rest.len() implies segment_table(#[trigger] rest[k]).len()
            <= 255 by {
            assert(rest[k] == pages[k + 1]);
        }
        lemma_pages(next, packets + ps, rest);
        assert(packets + ps + all_packets(rest) =~= packets + all_packets(pages));
    }
}

/// Reading an Ogg stream gives back the packets that its pages hold, any number in each page.
pub proof fn law_packets_read_back(pages: Seq<Seq<Seq<u8>>>)
    requires
        forall|i: int| 0 <= i < pages.len() ==> segment_table(#[trigger] pages[i]).len() <= 255,
    ensures
        paged(ogg_stream(pages), 0, Seq::empty(), None) == PagesView::Packets(all_packets(pages)),
{
    lemma_pages(Seq::empty(), Seq::empty(), pages);
    assert(Seq::<u8>::empty() + ogg_stream(pages) =~= ogg_stream(pages));
    assert(Seq::<Seq<u8>>::empty() + all_packets(pages) =~= all_packets(pages));
}

/// An ADTS frame without a checksum: `kind` gives the profile, the sample rate and the first bit
/// of the channels, `channels` the other two bits.
pub open spec fn adts_frame(kind: u8, channels: u8, data: Seq<u8>) -> Seq<u8> {
    let len = data.len() + 7;
    seq![
        0xffu8,
        0xf1u8,
        kind,
        (channels * 64 + len / 2048) as u8,
        (len / 8 % 256) as u8,
        (len % 8 * 32 + 31) as u8,
        0xfcu8,
    ] + data
}

/// ADTS frames one after the other.
pub open spec fn adts_stream(kind: u8, channels: u8, s: Seq<Seq<u8>>) -> Seq<u8>
    decreases s.len(),
{
    if s.len() == 0 {
        Seq::empty()
    } else {
        adts_frame(kind, channels, s[0]) + adts_stream(kind, channels, s.skip(1))
    }
}

/// The packets of frames with the given data, the first of which is packet number `from`.
pub open spec fn aac_packets(s: Seq<Seq<u8>>, from: nat, ms: u64) -> Seq<AudioFrameView> {
    Seq::new(
        s.len(),
        |i: int|
            AudioFrameView { timestamp_ms: ((from + i) * ms) as u64, duration_ms: ms, data: s[i] },
    )
}

proof fn lemma_adts_stream(
    front: Seq<u8>,
    kind: u8,
    channels: u8,
    s: Seq<Seq<u8>>,
    out: Seq<AudioFrameView>,
    first: Option<AdtsHeader>,
)
    requires
        channels < 4,
        forall|i: int| 0 <= i < s.len() ==> (#[trigger] s[i]).len() + 7 < 8192,
    ensures
        ({
            let h = AdtsHeader {
                frame_len: (s[0].len() + 7) as usize,
                ..adts_header(0xf1, kind, (channels * 64) as u8, 0, 0)
            };
            adts_frames(front + adts_stream(kind, channels, s), front.len() as int, out, first)
                == Some(
                (
                    out + aac_packets(s, out.len(), frame_ms(h.sample_rate)),
                    if out.len() == 0 && s.len() > 0 {
                        Some(h)
                    } else {
                        first
                    },
                ),
            )
        }),
    decreases s.len(),
{
    let b = front + adts_stream(kind, channels, s);
    let i = front.len() as int;
    let ms = frame_ms(adts_header(0xf1, kind, (channels * 64) as u8, 0, 0).sample_rate);
    if s.len() == 0 {
        assert(out + aac_packets(s, out.len(), ms) =~= out);
    } else {
        let d = s[0];
        let rest = s.skip(1);
        let frame = adts_frame(kind, channels, d);
        let next = front + frame;
        let len = d.len() + 7;
        assert(s[0].len() + 7 < 8192);
        assert(b =~= next + adts_stream(kind, channels, rest));
        assert forall|x: int| 0 <= x < frame.len() implies b[i + x] == frame[x] by {}
        assert(b[i] == 0xff && b[i + 1] == 0xf1 && b[i + 2] == kind);
        assert(b[i + 3] == (channels * 64 + len / 2048) as u8);
        assert(b[i + 4] == (len / 8 % 256) as u8);
        assert(b[i + 5] == (len % 8 * 32 + 31) as u8);
        let h = adts_header(b[i + 1], b[i + 2], b[i + 3], b[i + 4], b[i + 5]);
        let b3 = channels * 64 + len / 2048;
        assert(len / 2048 < 4);
        assert(b3 % 4 == len / 2048);
        assert(b3 / 64 == channels);
        assert(h.frame_len == len);
        assert(h.header_len == 7);
        assert(frame_ms(h.sample_rate) == ms);
        assert(b.subrange(i + 7, i + len) =~= d);
        let f = AudioFrameView {
            timestamp_ms: (out.len() * ms) as u64,
            duration_ms: ms,
            data: d,
        };
        let longer = out.push(f);
        let first2 = if out.len() == 0 {
            Some(h)
        } else {
            first
        };
        assert forall|k: int| 0 <= k < rest.len() implies (#[trigger] rest[k]).len() + 7 < 8192 by {
            assert(rest[k] == s[k + 1]);
        }
        lemma_adts_stream(next, kind, channels, rest, longer, first2);
        assert(longer + aac_packets(rest, longer.len(), ms) =~= out + aac_packets(
            s,
            out.len(),
            ms,
        ));
    }
}

/// Reading ADTS frames gives back the data of each, one after the other in time, and what their
/// headers say.
pub proof fn law_frames_read_back(kind: u8, channels: u8, s: Seq<Seq<u8>>)
    requires
        s.len() > 0,
        channels < 4,
        forall|i: int| 0 <= i < s.len() ==> (#[trigger] s[i]).len() + 7 < 8192,
    ensures
        ({
            let h = adts_header(0xf1, kind, (channels * 64) as u8, 0, 0);
            adts_data(adts_stream(kind, channels, s)) == Ok::<AudioDataView, AudioFault>(
                AudioDataView {
                    codec: AudioCodec::Aac,
                    sample_rate: h.sample_rate,
                    channels: h.channels,
                    codec_private: be16(h.config as int),
                    frames: aac_packets(s, 0, frame_ms(h.sample_rate)),
                },
            )
        }),
{
    lemma_adts_stream(Seq::empty(), kind, channels, s, Seq::empty(), None);
    let b = adts_stream(kind, channels, s);
    assert(Seq::<u8>::empty() + b =~= b);
    let ms = frame_ms(adts_header(0xf1, kind, (channels * 64) as u8, 0, 0).sample_rate);
    assert(Seq::<AudioFrameView>::empty() + aac_packets(s, 0, ms) =~= aac_packets(s, 0, ms));
}

proof fn lemma_heard_is_filter(s: Seq<AudioFrameView>, from: u64, to: u64)
    ensures
        heard(s, from, to) == s.filter(
            |f: AudioFrameView| f.timestamp_ms + f.duration_ms > from && f.timestamp_ms < to,
        ),
    decreases s.len(),
{
    reveal(Seq::filter);
    if s.len() > 0 {
        lemma_heard_is_filter(s.drop_last(), from, to);
    } else {
        assert(heard(s, from, to) =~= s);
    }
}

/// A part of a track holds every packet that ends after `from` and starts before `to`, once, in
/// the order of the track, with its data and its duration; the first of them moves to time 0, and
/// the others keep their distance from it.
pub proof fn law_slice_holds_all_that_is_heard(s: Seq<AudioFrameView>, from: u64, to: u64)
    ensures
        ({
            let part = arranged(s, Some((from, to)), false);
            let kept = s.filter(
                |f: AudioFrameView| f.timestamp_ms + f.duration_ms > from && f.timestamp_ms < to,
            );
            &&& part.len() == kept.len()
            &&& forall|k: int|
                0 <= k < kept.len() ==> {
                    &&& (#[trigger] part[k]).data == kept[k].data
                    &&& part[k].duration_ms == kept[k].duration_ms
                    &&& kept[k].timestamp_ms >= kept[0].timestamp_ms ==> part[k].timestamp_ms
                        + kept[0].timestamp_ms == kept[k].timestamp_ms
                    &&& kept[k].timestamp_ms < kept[0].timestamp_ms ==> part[k].timestamp_ms == 0
                }
        }),
{
    lemma_heard_is_filter(s, from, to);
}

/// A packet that is heard in a part of a track is there, whatever other packets are.
pub proof fn law_heard_packet_is_kept(s: Seq<AudioFrameView>, from: u64, to: u64, j: int)
    requires
        0 <= j < s.len(),
        s[j].timestamp_ms < to,
        s[j].timestamp_ms + s[j].duration_ms > from,
    ensures
        exists|k: int|
            0 <= k < arranged(s, Some((from, to)), false).len() && (#[trigger] arranged(
                s,
                Some((from, to)),
                false,
            )[k]).data == s[j].data && arranged(s, Some((from, to)), false)[k].duration_ms
                == s[j].duration_ms,
{
    let part = arranged(s, Some((from, to)), false);
    let h = heard(s, from, to);
    lemma_heard_contains(s, from, to, j);
    let k = choose|k: int| 0 <= k < h.len() && h[k] == s[j];
    assert(part[k].data == s[j].data && part[k].duration_ms == s[j].duration_ms);
}

proof fn lemma_heard_contains(s: Seq<AudioFrameView>, from: u64, to: u64, j: int)
    requires
        0 <= j < s.len(),
        s[j].timestamp_ms < to,
        s[j].timestamp_ms + s[j].duration_ms > from,
    ensures
        exists|k: int| 0 <= k < heard(s, from, to).len() && heard(s, from, to)[k] == s[j],
    decreases s.len(),
{
    let t = s.drop_last();
    if j == s.len() - 1 {
        let h = heard(s, from, to);
        assert(h[h.len() - 1] == s[j]);
    } else {
        assert(t[j] == s[j]);
        lemma_heard_contains(t, from, to, j);
        let k = choose|k: int| 0 <= k < heard(t, from, to).len() && heard(t, from, to)[k] == s[j];
        assert(heard(s, from, to)[k] == s[j]);
    }
}

/// A track without a slice that is not looped keeps every packet as it is. What a file holds is
/// handed on whatever its name.
pub proof fn law_whole_track(path: Seq<char>, other: Seq<char>, b: Seq<u8>, d: AudioDataView)
    requires
        decoded(b) == Ok::<AudioDataView, AudioFault>(d),
    ensures
        audio_parsed(path, b, None, false) == Ok::<AudioDataView, ErrorView>(d),
        audio_parsed(path, b, None, false) == audio_parsed(other, b, None, false),
        forall|slice: Option<(u64, u64)>, looped: bool| #[trigger]
            audio_parsed(path, b, slice, looped) matches Ok(e) && e.codec == d.codec
                && e.sample_rate == d.sample_rate && e.channels == d.channels && e.codec_private
                == d.codec_private && e.frames == arranged(d.frames, slice, looped),
{
}

/// A track is heard from its start on: every packet is later by just that much, and nothing else
/// about it changes.
pub proof fn law_track_starts_when_asked(t: LoadedView, b: Seq<u8>, d: AudioDataView, k: int)
    requires
        t.bytes == Some(b),
        audio_parsed(t.path, b, t.slice, t.looped) == Ok::<AudioDataView, ErrorView>(d),
        0 <= k < d.frames.len(),
        d.frames[k].timestamp_ms <= 0x4000_0000_0000_0000,
    ensures
        track_audio(t) matches Some(a) && a.frames.len() == d.frames.len()
            && a.frames[k].timestamp_ms == d.frames[k].timestamp_ms + t.start_ms
            && a.frames[k].duration_ms == d.frames[k].duration_ms && a.frames[k].data
            == d.frames[k].data && a.codec == d.codec && a.sample_rate == d.sample_rate
            && a.channels == d.channels && a.codec_private == d.codec_private,
{
}

/// A track that can be used and has the codec of those before it is put behind them, and nothing
/// is told; one that cannot be used changes nothing but the warnings.
pub proof fn law_tracks_put_together(s: Seq<LoadedView>, t: LoadedView)
    ensures
        track_audio(t) is None ==> collected(s.push(t)).0 == collected(s).0 && collected(
            s.push(t),
        ).1.len() == collected(s).1.len() + 1,
        collected(s).0 is None && track_audio(t) is Some ==> collected(s.push(t)).0 == track_audio(
            t,
        ) && collected(s.push(t)).1 == collected(s).1,
        collected(s).0 matches Some(m) ==> (track_audio(t) matches Some(d) ==> {
            let (all, told) = collected(s.push(t));
            &&& all is Some
            &&& m.codec == d.codec ==> told == collected(s).1 && all->0.frames.len()
                == m.frames.len() + d.frames.len() && all->0.frames.skip(m.frames.len() as int)
                == d.frames && all->0.frames.take(m.frames.len() as int) == m.frames
            &&& m.codec != d.codec ==> all == Some(m) && told.len() == collected(s).1.len() + 1
        }),
{
    assert(s.push(t).drop_last() =~= s);
    if let (Some(m), Some(d)) = (collected(s).0, track_audio(t)) {
        assert((m.frames + d.frames).skip(m.frames.len() as int) =~= d.frames);
        assert((m.frames + d.frames).take(m.frames.len() as int) =~= m.frames);
    }
}

/// Audio ends with its last packet.
pub proof fn law_audio_ends_with_its_last_packet(a: AudioDataView)
    ensures
        a.frames.len() == 0 ==> a.end_ms() == 0,
        a.frames.len() > 0 ==> a.end_ms() == a.frames[a.frames.len() - 1].timestamp_ms
            + a.frames[a.frames.len() - 1].duration_ms,
{
}

/// The sample rates that an ADTS header can give, by their number.
pub open spec fn mpeg4_rates() -> Seq<u32> {
    seq![
        96000u32,
        88200u32,
        64000u32,
        48000u32,
        44100u32,
        32000u32,
        24000u32,
        22050u32,
        16000u32,
        12000u32,
        11025u32,
        8000u32,
        7350u32,
    ]
}

proof fn lemma_rate(k: int)
    requires
        0 <= k < 13,
    ensures
        sample_rate_of(k) == mpeg4_rates()[k],
        7350 <= mpeg4_rates()[k] <= 96000,
{
}

proof fn lemma_header_parts(profile: int, rate: int, channels: int, kind: u8, low: u8)
    requires
        0 <= profile < 4,
        0 <= rate < 13,
        0 <= channels < 8,
        kind == profile * 64 + rate * 4 + channels / 4,
        low == channels % 4,
    ensures
        ({
            let h = adts_header(0xf1, kind, (low * 64) as u8, 0, 0);
            &&& h.sample_rate == sample_rate_of(rate)
            &&& h.channels == channels
            &&& h.config == (profile + 1) * 2048 + rate * 128 + channels * 8
        }),
{
    assert(kind as int / 64 == profile);
    assert(kind as int / 4 % 16 == rate);
    assert(kind as int % 2 == channels / 4);
    assert(((low * 64) as u8) as int / 64 == low);
}

proof fn lemma_config_bytes(profile: int, rate: int, channels: int)
    requires
        0 <= profile < 4,
        0 <= rate < 13,
        0 <= channels < 8,
    ensures
        ({
            let c = be16((profile + 1) * 2048 + rate * 128 + channels * 8);
            &&& c.len() == 2
            &&& c[0] / 8 == profile + 1
            &&& c[0] % 8 * 2 + c[1] / 128 == rate
            &&& c[1] / 8 % 16 == channels
            &&& c[1] % 8 == 0
        }),
{
    let v = (profile + 1) * 2048 + rate * 128 + channels * 8;
    reveal_with_fuel(crate::bytes::be_bytes, 3);
    let c = be16(v);
    assert(c =~= seq![(v / 256 % 256) as u8, (v % 256) as u8]);
    assert(v / 256 == (profile + 1) * 8 + rate / 2);
    assert(v % 256 == rate % 2 * 128 + channels * 8);
}

proof fn lemma_nearest_ms(r: u32)
    requires
        7350 <= r <= 96000,
    ensures
        frame_ms(r) <= 140,
        -(r as int) <= 2 * (frame_ms(r) * r - 1024 * 1000) <= r,
{
    lemma_frame_ms(r);
    let n = 1024000 + r as int / 2;
    let q = n / (r as int);
    assert(q * r <= n < q * r + r) by (nonlinear_arith)
        requires
            r > 0,
            q == n / (r as int),
    ;
    assert(q >= 0) by (nonlinear_arith)
        requires
            r > 0,
            n >= 0,
            q == n / (r as int),
    ;
    assert(frame_ms(r) == q);
}

proof fn lemma_packet_times(s: Seq<Seq<u8>>, ms: u64)
    requires
        s.len() < 0x1_0000_0000,
        ms <= 140,
    ensures
        forall|i: int|
            0 <= i < s.len() ==> (#[trigger] aac_packets(s, 0, ms)[i]).timestamp_ms == i * ms,
{
    assert forall|i: int| 0 <= i < s.len() implies (#[trigger] aac_packets(
        s,
        0,
        ms,
    )[i]).timestamp_ms == i * ms by {
        assert(0 <= i * ms <= 0x1_0000_0000 * 140) by (nonlinear_arith)
            requires
                0 <= i < 0x1_0000_0000,
                0 <= ms <= 140,
        ;
    }
}

/// Reading ADTS frames of a given profile, rate and number of channels gives that rate and that
/// number; the decoder configuration holds the object type, the number of the rate and the number
/// of channels in 5, 4 and 4 bits; every packet lasts 1024 samples, to the nearest millisecond, and
/// starts where the one before it ends.
#[verifier::rlimit(30)]
pub proof fn law_adts_header_means(profile: u8, rate: u8, channels: u8, s: Seq<Seq<u8>>)
    requires
        profile < 4,
        rate < 13,
        channels < 8,
        0 < s.len() < 0x1_0000_0000,
        forall|i: int| 0 <= i < s.len() ==> (#[trigger] s[i]).len() + 7 < 8192,
    ensures
        ({
            let kind = (profile * 64 + rate * 4 + channels / 4) as u8;
            let r = mpeg4_rates()[rate as int];
            adts_data(adts_stream(kind, (channels % 4) as u8, s)) matches Ok(d) && {
                &&& d.codec == AudioCodec::Aac
                &&& d.sample_rate == r
                &&& d.channels == channels
                &&& d.codec_private.len() == 2
                &&& d.codec_private[0] / 8 == profile + 1
                &&& d.codec_private[0] % 8 * 2 + d.codec_private[1] / 128 == rate
                &&& d.codec_private[1] / 8 % 16 == channels
                &&& d.codec_private[1] % 8 == 0
                &&& d.frames.len() == s.len()
                &&& forall|i: int|
                    0 <= i < s.len() ==> {
                        &&& (#[trigger] d.frames[i]).data == s[i]
                        &&& d.frames[i].timestamp_ms == i * d.frames[0].duration_ms
                        &&& d.frames[i].duration_ms == d.frames[0].duration_ms
                    }
                &&& -(r as int) <= 2 * (d.frames[0].duration_ms * r - 1024 * 1000) <= r
            }
        }),
{
    let kind = (profile * 64 + rate * 4 + channels / 4) as u8;
    let low = (channels % 4) as u8;
    law_frames_read_back(kind, low, s);
    lemma_header_parts(profile as int, rate as int, channels as int, kind, low);
    lemma_rate(rate as int);
    lemma_config_bytes(profile as int, rate as int, channels as int);
    let r = mpeg4_rates()[rate as int];
    lemma_nearest_ms(r);
    lemma_packet_times(s, frame_ms(r));
    let d = adts_data(adts_stream(kind, low, s))->Ok_0;
    assert(d.frames == aac_packets(s, 0, frame_ms(r)));
    assert(d.frames[0].duration_ms == frame_ms(r));
}

/// Reading an Ogg stream of Opus: its first packet is kept as the decoder configuration and gives
/// the number of channels in its tenth byte, the second is passed over, and each of the others
/// is a packet of 20 milliseconds, one after the other.
pub proof fn law_opus_stream_means(pages: Seq<Seq<Seq<u8>>>)
    requires
        forall|i: int| 0 <= i < pages.len() ==> segment_table(#[trigger] pages[i]).len() <= 255,
        2 <= all_packets(pages).len() <= MAX_AUDIO_BYTES,
        all_packets(pages)[0].len() >= 10,
        all_packets(pages)[0].take(8) == text("OpusHead"@),
    ensures
        opus_data(ogg_stream(pages)) matches Ok(d) && {
            let p = all_packets(pages);
            &&& d.codec == AudioCodec::Opus
            &&& d.sample_rate == 48000
            &&& d.channels == p[0][9]
            &&& d.codec_private == p[0]
            &&& d.frames.len() + 2 == p.len()
            &&& forall|i: int|
                0 <= i < d.frames.len() ==> (#[trigger] d.frames[i]).data == p[i + 2]
                    && d.frames[i].timestamp_ms == 20 * i && d.frames[i].duration_ms == 20
        },
{
    law_packets_read_back(pages);
    let p = all_packets(pages);
    reveal_strlit("OpusHead");
    vstd::utf8::is_ascii_chars_encode_utf8("OpusHead"@);
    assert(marked(p[0], 0, "OpusHead"@)) by {
        assert(p[0].take(8) =~= p[0].subrange(0, 8));
    }
}

} // verus!
