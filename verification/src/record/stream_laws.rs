//! What holds of every stream: the time of each message, what a publisher takes,
//! and that nothing is lost between two calls.

use super::rtmp::publisher::{
    adopted_size, announcement_frames, live_end, media_csid, sequence_header_bytes, Held, LiveEvent,
    LoopEnd, MediaFrame, PublisherAction, PublisherEvent, PublisherLoop, PublisherState,
};
use super::stream::{
    aac_header, audio_tag_bytes, base_of, frames_bytes, head_frame, kbps_to_bps, left_over,
    offered_all, packet_frames, packet_time, paired, place_of, pts_ms, skipped_of, taken_of,
    unit_frames,
};
use crate::aac::AacFrame;
use crate::bytes::be16_bytes;
use crate::encode::{round_div, EncodedUnit, Pts};
use vstd::prelude::*;

verus! {

/// The rate of a presentation time: one where it is zero.
pub open spec fn rate_of(p: Pts) -> int {
    if p.rate == 0 {
        1
    } else {
        p.rate as int
    }
}

proof fn lemma_quotient(n: int, d: int)
    requires
        d > 0,
    ensures
        (n / d) * d <= n < (n / d + 1) * d,
{
    let q = n / d;
    assert(q * d <= n < (q + 1) * d) by (nonlinear_arith)
        requires
            q == n / d,
            d > 0,
    ;
}

/// A presentation time in milliseconds is off by no more than half of one, and a
/// time between two milliseconds counts as the later one.
pub proof fn law_a_time_is_rounded_to_the_millisecond(p: Pts)
    ensures
        pts_ms(p) < u32::MAX ==> 2000 * p.index - rate_of(p) < 2 * (pts_ms(p) * rate_of(p))
            <= 2000 * p.index + rate_of(p),
        pts_ms(p) == u32::MAX ==> 2 * (u32::MAX * rate_of(p)) <= 2000 * p.index + rate_of(p),
{
    let d = rate_of(p);
    let n = 1000 * p.index;
    let t = round_div(n, d);
    lemma_quotient(2 * n + d, 2 * d);
    assert(t * (2 * d) == 2 * (t * d)) by (nonlinear_arith);
    assert((t + 1) * (2 * d) == 2 * (t * d) + 2 * d) by (nonlinear_arith);
    if t > u32::MAX {
        assert(u32::MAX * d <= t * d) by (nonlinear_arith)
            requires
                t > u32::MAX,
                d > 0,
        ;
    }
}

/// Every message of a unit is video, carries the unit's bytes behind a tag that
/// says whether it is a keyframe, and has the unit's own time: the milliseconds
/// nearest to its index over its rate, as far as 32 bits hold them.
pub proof fn law_a_unit_is_sent_at_its_time(units: Seq<EncodedUnit>, i: int)
    requires
        0 <= i < units.len(),
    ensures
        unit_frames(units).len() == units.len(),
        ({
            let f = unit_frames(units)[i];
            let u = units[i];
            let r = rate_of(u.pts);
            &&& f.kind == 9
            &&& f.timestamp < u32::MAX ==> 2000 * u.pts.index - r < 2 * (f.timestamp * r) <= 2000
                * u.pts.index + r
            &&& f.timestamp == u32::MAX ==> 2 * (u32::MAX * r) <= 2000 * u.pts.index + r
            &&& f.payload.len() == 5 + u.data@.len()
            &&& f.payload.subrange(5, f.payload.len() as int) == u.data@
            &&& f.payload[0] == (if u.is_keyframe {
                0x17u8
            } else {
                0x27u8
            })
            &&& f.payload[1] == 1
            &&& f.payload[2] == 0 && f.payload[3] == 0 && f.payload[4] == 0
        }),
{
    let f = unit_frames(units)[i];
    law_a_time_is_rounded_to_the_millisecond(units[i].pts);
    assert(f.payload.subrange(5, f.payload.len() as int) =~= units[i].data@);
}

/// Two units a second apart are a thousand milliseconds apart.
pub proof fn law_a_second_is_a_thousand_milliseconds(
    units: Seq<EncodedUnit>,
    i: int,
    j: int,
)
    requires
        0 <= i < units.len(),
        0 <= j < units.len(),
        units[i].pts.rate == units[j].pts.rate,
        units[j].pts.index == units[i].pts.index + rate_of(units[i].pts),
        unit_frames(units)[j].timestamp < u32::MAX,
    ensures
        unit_frames(units)[j].timestamp == unit_frames(units)[i].timestamp + 1000,
{
    let a = units[i].pts;
    let b = units[j].pts;
    let d = rate_of(a);
    let n = 1000 * a.index;
    let m = 1000 * b.index;
    assert(m == n + 1000 * d);
    let q = (2 * n + d) / (2 * d);
    let r = (2 * m + d) / (2 * d);
    assert(r == q + 1000) by (nonlinear_arith)
        requires
            q == (2 * n + d) / (2 * d),
            r == (2 * m + d) / (2 * d),
            m == n + 1000 * d,
            d > 0,
    ;
}

/// Timestamps never go back while presentation times grow.
pub proof fn law_video_time_moves_forward(units: Seq<EncodedUnit>, i: int, j: int)
    requires
        0 <= i < units.len(),
        0 <= j < units.len(),
        units[i].pts.index * rate_of(units[j].pts) <= units[j].pts.index * rate_of(units[i].pts),
    ensures
        unit_frames(units)[i].timestamp <= unit_frames(units)[j].timestamp,
{
    let a = units[i].pts;
    let b = units[j].pts;
    let x = rate_of(a);
    let y = rate_of(b);
    let n = 1000 * a.index;
    let m = 1000 * b.index;
    let q = (2 * n + x) / (2 * x);
    let r = (2 * m + y) / (2 * y);
    lemma_quotient(2 * n + x, 2 * x);
    lemma_quotient(2 * m + y, 2 * y);
    assert(n * y <= m * x) by (nonlinear_arith)
        requires
            n == 1000 * a.index,
            m == 1000 * b.index,
            a.index * y <= b.index * x,
    ;
    assert(q <= r) by (nonlinear_arith)
        requires
            q * (2 * x) <= 2 * n + x,
            2 * m + y < (r + 1) * (2 * y),
            n * y <= m * x,
            x > 0,
            y > 0,
    ;
}

/// The announcement of video is a message of its own at the time of the first
/// unit, with both parameter sets whole and the profile of the first.
pub proof fn law_the_announcement_reads_back(
    units: Seq<EncodedUnit>,
    sps: Seq<u8>,
    pps: Seq<u8>,
)
    requires
        units.len() > 0,
        4 <= sps.len() < 0x1_0000,
        pps.len() < 0x1_0000,
    ensures
        ({
            let f = head_frame(units, sps, pps);
            let b = f.payload;
            let s = sps.len() as int;
            let p = pps.len() as int;
            &&& f.kind == 9
            &&& f.timestamp == unit_frames(units)[0].timestamp
            &&& b.len() == 16 + s + p
            &&& b[0] == 0x17 && b[1] == 0 && b[2] == 0 && b[3] == 0 && b[4] == 0
            &&& b[5] == 1
            &&& b[6] == sps[1] && b[7] == sps[2] && b[8] == sps[3]
            &&& b[9] == 0xFF && b[10] == 0xE1
            &&& b[11] * 256 + b[12] == s
            &&& b.subrange(13, 13 + s) == sps
            &&& b[13 + s] == 1
            &&& b[14 + s] * 256 + b[15 + s] == p
            &&& b.subrange(16 + s, 16 + s + p) == pps
        }),
{
    let b = head_frame(units, sps, pps).payload;
    law_a_sequence_header_reads_back(sps[1], sps[2], sps[3], sps, pps);
}

/// A sequence header reads back: the profile it was given, and both parameter sets
/// behind their lengths.
pub proof fn law_a_sequence_header_reads_back(
    profile: u8,
    compat: u8,
    level: u8,
    sps: Seq<u8>,
    pps: Seq<u8>,
)
    requires
        sps.len() < 0x1_0000,
        pps.len() < 0x1_0000,
    ensures
        ({
            let b = sequence_header_bytes(profile, compat, level, sps, pps);
            let s = sps.len() as int;
            let p = pps.len() as int;
            &&& b.len() == 16 + s + p
            &&& b[0] == 0x17 && b[1] == 0 && b[2] == 0 && b[3] == 0 && b[4] == 0
            &&& b[5] == 1
            &&& b[6] == profile && b[7] == compat && b[8] == level
            &&& b[9] == 0xFF && b[10] == 0xE1
            &&& b[11] * 256 + b[12] == s
            &&& b.subrange(13, 13 + s) == sps
            &&& b[13 + s] == 1
            &&& b[14 + s] * 256 + b[15 + s] == p
            &&& b.subrange(16 + s, 16 + s + p) == pps
        }),
{
    let b = sequence_header_bytes(profile, compat, level, sps, pps);
    let s = sps.len() as int;
    let p = pps.len() as int;
    let head = seq![0x17u8, 0, 0, 0, 0, 1, profile, compat, level, 0xFF, 0xE1];
    let x = head + be16_bytes(s);
    let y = x + sps;
    let z = y + seq![1u8];
    let w = z + be16_bytes(p);
    assert(b == w + pps);
    assert forall|i: int| 0 <= i < 13 implies b[i] == x[i] by {
        assert(w[i] == z[i] && z[i] == y[i] && y[i] == x[i]);
    }
    assert forall|i: int| 0 <= i < 11 implies #[trigger] x[i] == head[i] by {}
    assert(b[11] == be16_bytes(s)[0] && b[12] == be16_bytes(s)[1]);
    assert(b.subrange(13, 13 + s) =~= sps);
    assert(b[13 + s] == 1);
    assert(b[14 + s] == be16_bytes(p)[0] && b[15 + s] == be16_bytes(p)[1]);
    assert(b.subrange(16 + s, 16 + s + p) =~= pps);
}

/// An audio message is a two-byte tag and the packet; the codec's configuration
/// goes behind a tag that differs in its second byte alone.
pub proof fn law_audio_tags_hold_their_packets(data: Seq<u8>)
    ensures
        audio_tag_bytes(data).len() == 2 + data.len(),
        audio_tag_bytes(data)[0] == 0xAF,
        audio_tag_bytes(data)[1] == 1,
        audio_tag_bytes(data).subrange(2, 2 + data.len() as int) == data,
        aac_header(data).len() == 2 + data.len(),
        aac_header(data)[0] == 0xAF,
        aac_header(data)[1] == 0,
        aac_header(data).subrange(2, 2 + data.len() as int) == data,
{
    assert(audio_tag_bytes(data).subrange(2, 2 + data.len() as int) =~= data);
    assert(aac_header(data).subrange(2, 2 + data.len() as int) =~= data);
}

/// Every retained packet is an audio message of its own bytes, at the time of the
/// 1024 samples of each packet before it, of which 48 pass in a millisecond.
pub proof fn law_a_packet_is_sent_at_its_time(packets: Seq<AacFrame>, n: int, i: int)
    requires
        0 <= n,
        0 <= i < packets.len(),
        1024 * (n + i) < 48 * 0x1_0000_0000,
    ensures
        packet_frames(packets, n).len() == packets.len(),
        ({
            let f = packet_frames(packets, n)[i];
            &&& f.kind == 8
            &&& 48 * f.timestamp <= 1024 * (n + i) < 48 * (f.timestamp + 1)
            &&& f.payload.len() == 2 + packets[i].data@.len()
            &&& f.payload[0] == 0xAF
            &&& f.payload[1] == 1
            &&& f.payload.subrange(2, f.payload.len() as int) == packets[i].data@
        }),
{
    let k = n + i;
    let t = k * 1024 * 1000 / 48_000;
    assert(0 <= t < 0x1_0000_0000);
    assert(t % 0x1_0000_0000 == t);
    assert(packet_time(k) == t);
    let f = packet_frames(packets, n)[i];
    assert(f.payload.subrange(2, f.payload.len() as int) =~= packets[i].data@);
}

/// Past what 32 bits hold, the time of a packet starts again from zero.
pub proof fn law_packet_times_go_round(n: int)
    requires
        0 <= n,
    ensures
        0 <= packet_time(n) < 0x1_0000_0000,
        packet_time(n + 3 * 0x400_0000) == packet_time(n),
{
    let x = n * 1024 * 1000;
    let a = x / 48_000;
    assert((n + 3 * 0x400_0000) * 1024 * 1000 == x + 0x1_0000_0000 * 48_000);
    vstd::arithmetic::div_mod::lemma_hoist_over_denominator(x, 0x1_0000_0000, 48_000);
    vstd::arithmetic::div_mod::lemma_mod_add_multiples_vanish(a, 0x1_0000_0000);
}

proof fn lemma_offered_state(h: Held, frames: Seq<MediaFrame>)
    ensures
        offered_all(h, frames).state == h.state,
    decreases frames.len(),
{
    if frames.len() > 0 {
        lemma_offered_state(h, frames.drop_last());
    }
}

/// A publisher with room takes every frame it is offered, in order and unchanged,
/// and counts its bytes.
pub proof fn law_a_publisher_with_room_takes_all(h: Held, frames: Seq<MediaFrame>)
    requires
        h.state != PublisherState::Closed,
        h.queue.len() + frames.len() <= 64,
    ensures
        offered_all(h, frames).queue == h.queue + frames,
        offered_all(h, frames).shed == h.shed,
        offered_all(h, frames).buffered == h.buffered + frames_bytes(frames),
        taken_of(h, frames) == frames.len(),
    decreases frames.len(),
{
    if frames.len() > 0 {
        law_a_publisher_with_room_takes_all(h, frames.drop_last());
        lemma_offered_state(h, frames.drop_last());
        assert(frames.drop_last().push(frames.last()) =~= frames);
        assert(offered_all(h, frames).queue =~= h.queue + frames);
    } else {
        assert(h.queue + frames =~= h.queue);
    }
}

/// A publisher that is shut takes nothing, and one that is full sheds and counts
/// every frame; what waits in it is left as it is.
pub proof fn law_a_publisher_without_room_takes_nothing(h: Held, frames: Seq<MediaFrame>)
    requires
        h.state == PublisherState::Closed || h.queue.len() >= 64,
    ensures
        offered_all(h, frames).queue == h.queue,
        offered_all(h, frames).buffered == h.buffered,
        h.state == PublisherState::Closed ==> offered_all(h, frames).shed == h.shed,
        h.state != PublisherState::Closed ==> offered_all(h, frames).shed == h.shed + frames.len(),
        taken_of(h, frames) == 0,
    decreases frames.len(),
{
    if frames.len() > 0 {
        law_a_publisher_without_room_takes_nothing(h, frames.drop_last());
        lemma_offered_state(h, frames.drop_last());
    }
}

/// What a publisher did not take it has shed, unless it is shut: no frame is lost
/// uncounted.
pub proof fn law_every_frame_is_taken_or_shed(h: Held, frames: Seq<MediaFrame>)
    requires
        h.state != PublisherState::Closed,
    ensures
        taken_of(h, frames) + offered_all(h, frames).shed == h.shed + frames.len(),
        offered_all(h, frames).queue.len() == h.queue.len() + taken_of(h, frames),
    decreases frames.len(),
{
    if frames.len() > 0 {
        law_every_frame_is_taken_or_shed(h, frames.drop_last());
        lemma_offered_state(h, frames.drop_last());
    }
}

/// The place of a picture is its distance from the first picture of the stream,
/// which is at zero; the first picture stays the first.
pub proof fn law_a_stream_counts_from_its_first_picture(first: u64, frame: u64)
    ensures
        base_of(None, first) == first,
        place_of(None, first) == Some(0u64),
        base_of(Some(first), frame) == first,
        frame >= first ==> place_of(Some(first), frame) == Some((frame - first) as u64),
        frame < first ==> place_of(Some(first), frame) is None,
{
}

/// Samples stay in pairs: what is handed on is even in number, at most one sample
/// waits, and what is handed on with what waits is all that came, in order.
pub proof fn law_samples_stay_in_pairs(carry: Option<u32>, drained: Seq<u32>)
    ensures
        ({
            let before = match carry {
                Some(c) => seq![c],
                None => Seq::empty(),
            };
            let after = match left_over(carry, drained) {
                Some(c) => seq![c],
                None => Seq::empty(),
            };
            &&& paired(carry, drained).len() % 2 == 0
            &&& paired(carry, drained) + after == before + drained
        }),
{
    let before = match carry {
        Some(c) => seq![c],
        None => Seq::empty(),
    };
    let after = match left_over(carry, drained) {
        Some(c) => seq![c],
        None => Seq::empty(),
    };
    assert(paired(carry, drained) + after =~= before + drained);
}

/// Priming is dropped once: of two blocks, the first takes as much of it as it
/// holds and the second what is left, together as much as one block of both would.
pub proof fn law_priming_is_dropped_once(priming: u64, a: int, b: int)
    requires
        0 <= a,
        0 <= b,
    ensures
        0 <= skipped_of(priming, a) <= a,
        skipped_of(priming, a) <= priming,
        skipped_of(priming, a) < a ==> skipped_of(priming, a) == priming,
        skipped_of(priming, a) + skipped_of((priming - skipped_of(priming, a)) as u64, b)
            == skipped_of(priming, a + b),
{
}

/// The messages of two blocks of packets are those of both together.
pub proof fn law_packets_are_numbered_on(a: Seq<AacFrame>, b: Seq<AacFrame>, n: int)
    ensures
        packet_frames(a, n) + packet_frames(b, n + a.len()) == packet_frames(a + b, n),
{
    assert(packet_frames(a, n) + packet_frames(b, n + a.len()) =~= packet_frames(a + b, n));
}

/// A bit rate in kilobits is a thousand times as many bits, as far as 32 bits hold
/// them.
pub proof fn law_a_kilobit_is_a_thousand_bits(kbps: u32)
    ensures
        kbps <= 4_294_967 ==> kbps_to_bps(kbps) == 1000 * kbps,
        kbps > 4_294_967 ==> kbps_to_bps(kbps) == 0xffff_ffff,
{
}

/// A frame that is taken waits behind all others, as it was offered.
pub proof fn law_a_frame_waits_as_it_was_offered(h: Held, f: MediaFrame)
    ensures
        h.offered(f).1 <==> h.state != PublisherState::Closed && h.queue.len() < 64,
        h.offered(f).1 ==> h.offered(f).0.queue.len() == h.queue.len() + 1
            && h.offered(f).0.queue.last() == f && h.offered(f).0.queue.drop_last() == h.queue
            && h.offered(f).0.shed == h.shed,
        !h.offered(f).1 ==> h.offered(f).0.queue == h.queue,
        h.state != PublisherState::Closed && !h.offered(f).1 ==> h.offered(f).0.shed == h.shed + 1,
        h.offered(f).0.writing == h.writing,
        h.offered(f).0.state == h.state,
{
    assert(h.queue.push(f).drop_last() =~= h.queue);
}

/// The first message of a kind is the announcement of that kind, and stays it; a
/// new connection is sent the video's first, both from time zero.
pub proof fn law_the_first_message_announces(h: Held, f: MediaFrame)
    ensures
        f.kind == 9 && h.video_seq is None ==> h.offered(f).0.video_seq == Some(f.payload),
        f.kind == 8 && h.audio_seq is None ==> h.offered(f).0.audio_seq == Some(f.payload),
        h.video_seq is Some ==> h.offered(f).0.video_seq == h.video_seq,
        h.audio_seq is Some ==> h.offered(f).0.audio_seq == h.audio_seq,
        f.kind != 9 ==> h.offered(f).0.video_seq == h.video_seq,
        f.kind != 8 ==> h.offered(f).0.audio_seq == h.audio_seq,
        h.video_seq is Some && h.audio_seq is Some ==> ({
            let a = announcement_frames(h);
            &&& a.len() == 2
            &&& a[0].kind == 9 && a[0].timestamp == 0 && Some(a[0].payload) == h.video_seq
            &&& a[1].kind == 8 && a[1].timestamp == 0 && Some(a[1].payload) == h.audio_seq
        }),
        h.video_seq is Some && h.audio_seq is None ==> announcement_frames(h).len() == 1
            && announcement_frames(h)[0].kind == 9,
        h.video_seq is None && h.audio_seq is Some ==> announcement_frames(h).len() == 1
            && announcement_frames(h)[0].kind == 8 && Some(announcement_frames(h)[0].payload)
            == h.audio_seq,
        h.video_seq is None && h.audio_seq is None ==> announcement_frames(h).len() == 0,
{
}

/// Video and audio travel on chunk streams of their own.
pub proof fn law_media_travel_apart()
    ensures
        media_csid(9) != media_csid(8),
        media_csid(9) > 2,
        media_csid(8) > 2,
{
}

/// The size a peer announces is adopted where the announcement is whole, on the
/// control stream, and of 128 bytes to 64 KiB; nothing else changes the size.
pub proof fn law_only_an_announced_size_is_adopted(bytes: Seq<u8>, current: usize)
    ensures
        ({
            let n = adopted_size(bytes, current);
            let told = bytes[12] * 0x100_0000 + bytes[13] * 0x1_0000 + bytes[14] * 0x100
                + bytes[15];
            &&& n != current ==> bytes.len() >= 16 && bytes[0] == 2 && bytes[7] == 1 && n == told
                && 128 <= n <= 65_536
            &&& bytes.len() >= 16 && bytes[0] == 2 && bytes[7] == 1 && 128 <= told <= 65_536
                ==> n == told
        }),
{
}

/// The pause before dialing again doubles until it is a second.
pub proof fn law_the_pause_doubles(l: PublisherLoop)
    ensures
        ({
            let next = l.step(PublisherEvent::PauseOver, false).0.pause_ms;
            &&& l.pause_ms <= 500 ==> next == l.pause_ms + l.pause_ms
            &&& l.pause_ms > 500 ==> next == 1000
        }),
{
}

/// Every failure pauses for as long as the pause then is, success sets the pause
/// back to a tenth of a second, and a shutdown ends the publisher before it dials.
pub proof fn law_a_publisher_dials_again(l: PublisherLoop, closed: bool)
    ensures
        l.step(PublisherEvent::ConnectFailed, closed).1 == PublisherAction::Pause(l.pause_ms),
        l.step(PublisherEvent::DialogFailed, closed).1 == PublisherAction::Pause(l.pause_ms),
        l.step(PublisherEvent::AnnounceFailed, closed).1 == PublisherAction::Pause(l.pause_ms),
        l.step(PublisherEvent::TransportLost, closed).1 == PublisherAction::Pause(l.pause_ms),
        l.step(PublisherEvent::DialogLive, closed).0.pause_ms == 100,
        l.step(PublisherEvent::DialogLive, closed).1 == PublisherAction::Announce,
        l.step(PublisherEvent::Connected, closed).1 == PublisherAction::Talk,
        l.step(PublisherEvent::Announced, closed).1 == PublisherAction::Pump,
        l.step(PublisherEvent::Announced, closed).0.state == PublisherState::Live,
        l.step(PublisherEvent::Started, true).1 == PublisherAction::Exit,
        l.step(PublisherEvent::PauseOver, true).1 == PublisherAction::Exit,
        l.step(PublisherEvent::Started, true).0.state == PublisherState::Closed,
        l.step(PublisherEvent::PauseOver, true).0.state == PublisherState::Closed,
        l.step(PublisherEvent::Started, false).1 == PublisherAction::Dial,
        l.step(PublisherEvent::PauseOver, false).1 == PublisherAction::Dial,
        l.step(PublisherEvent::Started, false).0.state == PublisherState::Reconnecting,
        l.step(PublisherEvent::PauseOver, false).0.state == PublisherState::Reconnecting,
        l.step(PublisherEvent::LoopShutdown, closed).1 == PublisherAction::Exit,
        l.step(PublisherEvent::LoopShutdown, closed).0.state == PublisherState::Closed,
{
}

/// A live loop goes on while what it does succeeds and no shutdown is asked for;
/// a failed write and the connection's end are the transport's, and whatever a
/// shutdown brings about is the shutdown's.
pub proof fn law_a_live_loop_ends_for_a_reason(event: LiveEvent, closed: bool)
    ensures
        live_end(event, closed) is None <==> !closed && (event is Written || event is Read
            || event is Tick),
        live_end(event, closed) == Some(LoopEnd::Transport) <==> event is WriteFailed || (
        event is Eof && !closed),
{
}

} // verus!
