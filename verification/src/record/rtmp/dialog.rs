//! The dialog that opens a stream: handshake, `connect`, `createStream`,
//! `publish`.
//!
//! The connection is someone else's: this decides what to send and what to
//! make of what comes back.

use super::amf0::{
    amf0_bool, amf0_command_name_trans, amf0_create_stream_id, amf0_invoke, amf0_null, amf0_number,
    amf0_object, amf0_payload_contains, amf0_string, bool_bytes, command_of, contains_bytes,
    created_stream, encoded_props, invoke_bytes, near_one, near_two, number_bytes, object_bytes,
    string_bytes, NUMBER_0, NUMBER_1, NUMBER_10, NUMBER_15, NUMBER_2, NUMBER_7,
};
use super::chunk::{
    message_bytes, write_chunked, InMessage, Message, CSID_COMMAND, DEFAULT_CHUNK_SIZE,
    MSG_COMMAND,
};
use super::url::{RtmpUrl, Target};
use super::RtmpError;
use crate::bytes::{be32, be32_bytes, put, put_byte, put_zeros, zeros};
use crate::text::{decimal, push_decimal, str_eq};
use vstd::prelude::*;
use vstd::string::*;
use vstd::utf8::encode_utf8;

verus! {

/// Length of each handshake block.
pub const HANDSHAKE_LEN: usize = 1536;

/// Byte `i` of the filler in the opening block: any bytes do.
pub open spec fn filler_byte(i: int) -> u8 {
    ((i * 0x9E) % 0x100) as u8 ^ 0x37u8
}

/// What a publisher sends first: the version, the time, and filler.
pub open spec fn opening_bytes(now: u32) -> Seq<u8> {
    seq![3u8] + be32_bytes(now as int) + zeros(4) + Seq::new(1528, |i: int| filler_byte(i))
}

/// What a publisher sends first.
pub fn opening(now: u32) -> (out: Vec<u8>)
    ensures
        out@ == opening_bytes(now),
        out@.len() == 1 + HANDSHAKE_LEN,
{
    let mut out: Vec<u8> = Vec::new();
    put_byte(&mut out, 3);
    be32(&mut out, now);
    put_zeros(&mut out, 4);
    let ghost head = out@;
    let mut i: u32 = 0;
    while i < 1528
        invariant
            i <= 1528,
            out@ == head + Seq::new(i as nat, |k: int| filler_byte(k)),
        decreases 1528 - i,
    {
        out.push(((i * 0x9E) % 0x100) as u8 ^ 0x37u8);
        i = i + 1;
        assert(out@ =~= head + Seq::new(i as nat, |k: int| filler_byte(k)));
    }
    assert(out@ =~= opening_bytes(now));
    out
}

/// Check the version the peer answers with.
pub fn check_version(version: u8) -> (r: Result<(), RtmpError>)
    ensures
        r is Ok <==> version == 3,
        r matches Err(e) ==> e is Protocol && e.detail() == "peer is not RTMP (bad version)"@,
{
    if version == 3 {
        Ok(())
    } else {
        Err(RtmpError::Protocol("peer is not RTMP (bad version)".to_owned()))
    }
}

/// What a publisher sends once the peer has answered with its version and a
/// block: that block, byte for byte, whatever else the peer sent. A peer of
/// another version is refused, and nothing is sent.
pub fn handshake_answer(version: u8, block: &[u8]) -> (r: Result<Vec<u8>, RtmpError>)
    ensures
        version == 3 ==> (r matches Ok(out) && out@ == block@),
        version != 3 ==> (r matches Err(RtmpError::Protocol(why)) && why@
            == "peer is not RTMP (bad version)"@),
{
    match check_version(version) {
        Err(e) => Err(e),
        Ok(()) => {
            let mut out: Vec<u8> = Vec::new();
            put(&mut out, block);
            assert(out@ =~= block@);
            Ok(out)
        },
    }
}

/// A command as the wire carries it.
pub open spec fn command_bytes(stream_id: int, payload: Seq<u8>, chunk_size: int) -> Seq<u8> {
    message_bytes(
        (Message {
            csid: CSID_COMMAND as int,
            timestamp: 0,
            msg_type: MSG_COMMAND,
            stream_id,
            payload,
        }),
        chunk_size,
    )
}

fn command(stream_id: u32, payload: &[u8], chunk_size: usize) -> (out: Vec<u8>)
    requires
        chunk_size >= 1,
    ensures
        out@ == command_bytes(stream_id as int, payload@, chunk_size as int),
{
    write_chunked(CSID_COMMAND, 0, MSG_COMMAND, stream_id, payload, chunk_size)
}

/// The URL of the application: host, port and app, never the key.
pub open spec fn tc_url(t: Target) -> Seq<char> {
    "rtmp://"@ + t.host + seq![':'] + decimal(t.port as nat) + seq!['/'] + t.app
}

/// What `connect` tells the peer.
pub open spec fn connect_props(t: Target) -> Seq<(Seq<char>, Seq<u8>)> {
    seq![
        ("app"@, string_bytes(t.app)),
        ("flashVer"@, string_bytes("FMLE/3.0 (compatible; NBE)"@)),
        ("tcUrl"@, string_bytes(tc_url(t))),
        ("fpad"@, bool_bytes(false)),
        ("capabilities"@, number_bytes(NUMBER_15)),
        ("audioCodecs"@, number_bytes(NUMBER_10)),
        ("videoCodecs"@, number_bytes(NUMBER_7)),
        ("videoFunction"@, number_bytes(NUMBER_1)),
        ("objectEncoding"@, number_bytes(NUMBER_0)),
    ]
}

/// The `connect` command.
pub open spec fn connect_payload(t: Target) -> Seq<u8> {
    invoke_bytes("connect"@, NUMBER_1, object_bytes(connect_props(t)), Seq::empty())
}

/// A command whose arguments are null and the stream's key.
pub open spec fn keyed_payload(name: Seq<char>, key: Seq<char>) -> Seq<u8> {
    invoke_bytes(name, NUMBER_0, seq![5u8] + string_bytes(key), Seq::empty())
}

/// The `createStream` command.
pub open spec fn create_payload() -> Seq<u8> {
    invoke_bytes("createStream"@, NUMBER_2, seq![5u8], Seq::empty())
}

/// The `publish` command.
pub open spec fn publish_payload(key: Seq<char>) -> Seq<u8> {
    invoke_bytes(
        "publish"@,
        NUMBER_0,
        seq![5u8] + string_bytes(key) + string_bytes("live"@),
        Seq::empty(),
    )
}

fn tc_url_text(url: &RtmpUrl) -> (s: String)
    ensures
        s@ == tc_url(url@),
{
    let mut s: String = "rtmp://".to_owned();
    s.append(url.host.as_str());
    s.push(':');
    push_decimal(&mut s, url.port as u64);
    s.push('/');
    s.append(url.app.as_str());
    assert(s@ =~= tc_url(url@));
    s
}

fn connect_command(url: &RtmpUrl) -> (out: Vec<u8>)
    ensures
        out@ == connect_payload(url@),
{
    let tc: String = tc_url_text(url);
    let props: [(&str, Vec<u8>); 9] = [
        ("app", amf0_string(url.app.as_str())),
        ("flashVer", amf0_string("FMLE/3.0 (compatible; NBE)")),
        ("tcUrl", amf0_string(tc.as_str())),
        ("fpad", amf0_bool(false)),
        ("capabilities", amf0_number(NUMBER_15)),
        ("audioCodecs", amf0_number(NUMBER_10)),
        ("videoCodecs", amf0_number(NUMBER_7)),
        ("videoFunction", amf0_number(NUMBER_1)),
        ("objectEncoding", amf0_number(NUMBER_0)),
    ];
    assert(encoded_props(props@) =~= connect_props(url@));
    let object: Vec<u8> = amf0_object(&props);
    amf0_invoke("connect", NUMBER_1, object.as_slice(), &[])
}

fn keyed_command(name: &str, key: &str) -> (out: Vec<u8>)
    ensures
        out@ == keyed_payload(name@, key@),
{
    let mut args: Vec<u8> = amf0_null();
    let text: Vec<u8> = amf0_string(key);
    put(&mut args, text.as_slice());
    amf0_invoke(name, NUMBER_0, args.as_slice(), &[])
}

fn publish_command(key: &str) -> (out: Vec<u8>)
    ensures
        out@ == publish_payload(key@),
{
    let mut args: Vec<u8> = amf0_null();
    let text: Vec<u8> = amf0_string(key);
    put(&mut args, text.as_slice());
    let live: Vec<u8> = amf0_string("live");
    put(&mut args, live.as_slice());
    amf0_invoke("publish", NUMBER_0, args.as_slice(), &[])
}

/// What the dialog waits for.
#[derive(Debug, Clone, Copy, PartialEq, Eq, Structural)]
pub enum Phase {
    /// The answer to `connect`.
    Connecting,
    /// The answer to `createStream`.
    Creating,
    /// The status of `publish` on this stream.
    Publishing(u32),
}

/// How long a phase may last, in milliseconds.
pub fn phase_wait_ms(phase: Phase) -> (ms: u64)
    ensures
        ms == (match phase {
            Phase::Connecting => 5_000u64,
            Phase::Creating => 5_000,
            Phase::Publishing(_) => 2_000,
        }),
{
    match phase {
        Phase::Connecting => 5_000,
        Phase::Creating => 5_000,
        Phase::Publishing(_) => 2_000,
    }
}

/// How long a peer may stay silent in a phase before the phase is over, in
/// milliseconds: only a peer that was asked to publish may agree by silence.
pub fn quiet_ms(phase: Phase) -> (ms: Option<u64>)
    ensures
        ms == (match phase {
            Phase::Connecting => None::<u64>,
            Phase::Creating => None,
            Phase::Publishing(_) => Some(50),
        }),
{
    match phase {
        Phase::Connecting => None,
        Phase::Creating => None,
        Phase::Publishing(_) => Some(50),
    }
}

/// What happened on the connection.
pub enum DialogEvent {
    /// A message arrived.
    Message(InMessage),
    /// Reading failed.
    ReadFailed(RtmpError),
    /// The wait for this phase is over.
    Expired,
    /// The publisher is shutting down.
    Shutdown,
}

/// What to do next.
pub enum DialogAction {
    /// Read on.
    Wait,
    /// Send these bytes and read on.
    Send(Vec<u8>),
    /// The stream is open: media goes on this stream.
    Live(u32),
    /// The dialog failed.
    Refuse(RtmpError),
}

/// What to do next, as contracts speak of it.
pub enum Decision {
    Wait,
    Send(Seq<u8>),
    Live(u32),
    /// The peer refused or broke the protocol.
    Protocol(Seq<char>),
    /// The connection failed.
    Io(Seq<char>),
    /// The error that reading gave.
    PassOn(RtmpError),
}

/// Whether an action is the decided one.
pub open spec fn decided(a: DialogAction, d: Decision) -> bool {
    match (a, d) {
        (DialogAction::Wait, Decision::Wait) => true,
        (DialogAction::Send(b), Decision::Send(want)) => b@ == want,
        (DialogAction::Live(id), Decision::Live(want)) => id == want,
        (DialogAction::Refuse(RtmpError::Protocol(e)), Decision::Protocol(why)) => e@ == why,
        (DialogAction::Refuse(RtmpError::Io(e)), Decision::Io(why)) => e@ == why,
        (DialogAction::Refuse(e), Decision::PassOn(want)) => e == want,
        _ => false,
    }
}

/// What the answer to `connect` leads to: on success the stream's name is
/// announced and a stream is asked for.
pub open spec fn after_connect(t: Target, m: Message, size: int) -> (Phase, Decision) {
    match command_of(m.payload) {
        Err(why) => (Phase::Connecting, Decision::Protocol(why)),
        Ok((name, trans)) => {
            if name == "_result"@ && near_one(trans) {
                (
                    Phase::Creating,
                    Decision::Send(
                        command_bytes(0, keyed_payload("releaseStream"@, t.key), size)
                            + command_bytes(0, keyed_payload("FCPublish"@, t.key), size)
                            + command_bytes(0, create_payload(), size),
                    ),
                )
            } else if name == "_error"@ {
                (Phase::Connecting, Decision::Protocol("CONNECT refused"@))
            } else {
                (Phase::Connecting, Decision::Wait)
            }
        },
    }
}

/// What the answer to `createStream` leads to: on success the stream is
/// published.
pub open spec fn after_create(t: Target, m: Message, size: int) -> (Phase, Decision) {
    match command_of(m.payload) {
        Err(why) => (Phase::Creating, Decision::Protocol(why)),
        Ok((name, trans)) => {
            if name == "_result"@ && near_two(trans) {
                match created_stream(m.payload) {
                    None => (Phase::Creating, Decision::Protocol("createStream: no stream id"@)),
                    Some(id) => (
                        Phase::Publishing(id),
                        Decision::Send(command_bytes(id as int, publish_payload(t.key), size)),
                    ),
                }
            } else if name == "_error"@ {
                (Phase::Creating, Decision::Protocol("createStream refused"@))
            } else {
                (Phase::Creating, Decision::Wait)
            }
        },
    }
}

/// What a status of `publish` leads to. What cannot be read is passed over.
pub open spec fn after_publish(id: u32, m: Message) -> Decision {
    match command_of(m.payload) {
        Err(_) => Decision::Wait,
        Ok((name, _)) => {
            if name == "onStatus"@ {
                if contains_bytes(m.payload, encode_utf8("NetStream.Publish.Start"@)) {
                    Decision::Live(id)
                } else if contains_bytes(m.payload, encode_utf8("NetStream.Publish.BadName"@))
                    || contains_bytes(m.payload, encode_utf8("NetStream.Publish.Denied"@)) {
                    Decision::Protocol("PUBLISH refused"@)
                } else {
                    Decision::Wait
                }
            } else if name == "_error"@ {
                Decision::Protocol("PUBLISH refused"@)
            } else {
                Decision::Wait
            }
        },
    }
}

/// What an event leads to. A slow or broken answer to `publish` does not fail
/// a stream that the peer may still accept.
pub open spec fn dialog_step(t: Target, phase: Phase, event: DialogEvent, size: int) -> (
    Phase,
    Decision,
) {
    match event {
        DialogEvent::Shutdown => (phase, Decision::Io("shutting down"@)),
        DialogEvent::Expired => (
            phase,
            match phase {
                Phase::Connecting => Decision::Protocol("connect: no _result"@),
                Phase::Creating => Decision::Protocol("createStream: no _result"@),
                Phase::Publishing(id) => Decision::Live(id),
            },
        ),
        DialogEvent::ReadFailed(e) => (
            phase,
            match phase {
                Phase::Publishing(id) => Decision::Live(id),
                _ => Decision::PassOn(e),
            },
        ),
        DialogEvent::Message(m) => {
            if m.msg_type != MSG_COMMAND {
                (phase, Decision::Wait)
            } else {
                match phase {
                    Phase::Connecting => after_connect(t, m@, size),
                    Phase::Creating => after_create(t, m@, size),
                    Phase::Publishing(id) => (phase, after_publish(id, m@)),
                }
            }
        },
    }
}

/// A dialog in progress.
pub struct Dialog {
    pub url: RtmpUrl,
    pub phase: Phase,
}

impl Dialog {
    /// Open the dialog, once the handshake is done: the `connect` command.
    pub fn start(url: RtmpUrl) -> (r: (Dialog, Vec<u8>))
        ensures
            r.0.url == url,
            r.0.phase == Phase::Connecting,
            r.1@ == command_bytes(0, connect_payload(url@), DEFAULT_CHUNK_SIZE as int),
    {
        let connect: Vec<u8> = connect_command(&url);
        let out: Vec<u8> = command(0, connect.as_slice(), DEFAULT_CHUNK_SIZE);
        (Dialog { url, phase: Phase::Connecting }, out)
    }

    fn on_connect_reply(&mut self, m: &InMessage, size: usize) -> (a: DialogAction)
        requires
            old(self).phase == Phase::Connecting,
            size >= 1,
        ensures
            final(self).url == old(self).url,
            final(self).phase == after_connect(old(self).url@, m@, size as int).0,
            decided(a, after_connect(old(self).url@, m@, size as int).1),
    {
        let (name, trans): (String, u64) = match amf0_command_name_trans(m.payload.as_slice()) {
            Ok(x) => x,
            Err(e) => return DialogAction::Refuse(e),
        };
        if str_eq(name.as_str(), "_result") && trans >= 0x3fef_fffd_e721_0bea && trans
            <= 0x3ff0_0001_0c6f_7a0b {
            let release: Vec<u8> = keyed_command("releaseStream", self.url.key.as_str());
            let fc: Vec<u8> = keyed_command("FCPublish", self.url.key.as_str());
            let create: Vec<u8> = amf0_invoke(
                "createStream",
                NUMBER_2,
                amf0_null().as_slice(),
                &[],
            );
            let mut out: Vec<u8> = command(0, release.as_slice(), size);
            put(&mut out, command(0, fc.as_slice(), size).as_slice());
            put(&mut out, command(0, create.as_slice(), size).as_slice());
            self.phase = Phase::Creating;
            return DialogAction::Send(out);
        }
        if str_eq(name.as_str(), "_error") {
            return DialogAction::Refuse(RtmpError::Protocol("CONNECT refused".to_owned()));
        }
        DialogAction::Wait
    }

    fn on_create_reply(&mut self, m: &InMessage, size: usize) -> (a: DialogAction)
        requires
            old(self).phase == Phase::Creating,
            size >= 1,
        ensures
            final(self).url == old(self).url,
            final(self).phase == after_create(old(self).url@, m@, size as int).0,
            decided(a, after_create(old(self).url@, m@, size as int).1),
    {
        let (name, trans): (String, u64) = match amf0_command_name_trans(m.payload.as_slice()) {
            Ok(x) => x,
            Err(e) => return DialogAction::Refuse(e),
        };
        if str_eq(name.as_str(), "_result") && trans >= 0x3fff_fffe_f390_85f5 && trans
            <= 0x4000_0000_8637_bd05 {
            match amf0_create_stream_id(m.payload.as_slice()) {
                None => return DialogAction::Refuse(
                    RtmpError::Protocol("createStream: no stream id".to_owned()),
                ),
                Some(id) => {
                    let publish: Vec<u8> = publish_command(self.url.key.as_str());
                    self.phase = Phase::Publishing(id);
                    return DialogAction::Send(command(id, publish.as_slice(), size));
                },
            }
        }
        if str_eq(name.as_str(), "_error") {
            return DialogAction::Refuse(RtmpError::Protocol("createStream refused".to_owned()));
        }
        DialogAction::Wait
    }

    fn on_publish_status(id: u32, m: &InMessage) -> (a: DialogAction)
        ensures
            decided(a, after_publish(id, m@)),
    {
        proof {
            reveal_strlit("NetStream.Publish.Start");
            reveal_strlit("NetStream.Publish.BadName");
            reveal_strlit("NetStream.Publish.Denied");
        }
        let payload: &[u8] = m.payload.as_slice();
        let (name, _trans): (String, u64) = match amf0_command_name_trans(payload) {
            Ok(x) => x,
            Err(_) => return DialogAction::Wait,
        };
        if str_eq(name.as_str(), "onStatus") {
            if amf0_payload_contains(payload, "NetStream.Publish.Start") {
                return DialogAction::Live(id);
            }
            if amf0_payload_contains(payload, "NetStream.Publish.BadName")
                || amf0_payload_contains(payload, "NetStream.Publish.Denied") {
                return DialogAction::Refuse(RtmpError::Protocol("PUBLISH refused".to_owned()));
            }
            return DialogAction::Wait;
        }
        if str_eq(name.as_str(), "_error") {
            return DialogAction::Refuse(RtmpError::Protocol("PUBLISH refused".to_owned()));
        }
        DialogAction::Wait
    }

    /// Decide on an event. `size` is the chunk size to send with.
    pub fn on_event(&mut self, event: DialogEvent, size: usize) -> (a: DialogAction)
        requires
            size >= 1,
        ensures
            final(self).url == old(self).url,
            final(self).phase == dialog_step(
                old(self).url@,
                old(self).phase,
                event,
                size as int,
            ).0,
            decided(a, dialog_step(old(self).url@, old(self).phase, event, size as int).1),
    {
        match event {
            DialogEvent::Shutdown => DialogAction::Refuse(RtmpError::Io("shutting down".to_owned())),
            DialogEvent::Expired => match self.phase {
                Phase::Connecting => DialogAction::Refuse(
                    RtmpError::Protocol("connect: no _result".to_owned()),
                ),
                Phase::Creating => DialogAction::Refuse(
                    RtmpError::Protocol("createStream: no _result".to_owned()),
                ),
                Phase::Publishing(id) => DialogAction::Live(id),
            },
            DialogEvent::ReadFailed(e) => match self.phase {
                Phase::Publishing(id) => DialogAction::Live(id),
                _ => DialogAction::Refuse(e),
            },
            DialogEvent::Message(m) => {
                if m.msg_type != MSG_COMMAND {
                    return DialogAction::Wait;
                }
                match self.phase {
                    Phase::Connecting => self.on_connect_reply(&m, size),
                    Phase::Creating => self.on_create_reply(&m, size),
                    Phase::Publishing(id) => Self::on_publish_status(id, &m),
                }
            },
        }
    }
}

/// Media is only sent on a stream that the peer created: the dialog ends live
/// only from its last phase, on the stream that phase names.
pub proof fn law_live_only_on_a_created_stream(t: Target, phase: Phase, event: DialogEvent, size: int)
    ensures
        dialog_step(t, phase, event, size).1 matches Decision::Live(id) ==> phase
            == Phase::Publishing(id),
{
}

/// The dialog only moves forward.
pub proof fn law_dialog_moves_forward(t: Target, phase: Phase, event: DialogEvent, size: int)
    ensures
        ({
            let next = dialog_step(t, phase, event, size).0;
            next == phase || (phase == Phase::Connecting && next == Phase::Creating) || (phase
                == Phase::Creating && next is Publishing)
        }),
{
}

} // verus!
