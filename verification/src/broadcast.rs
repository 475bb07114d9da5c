//! Screen-share broadcasting: encoder settings, events and frame inspection.

use vstd::prelude::*;
use crate::text::{append_chars, append_str, chars_of, decimal, decimal_chars_u64, string_of};
use std::collections::HashMap;
use std::time::Duration;
use crate::timing::{duration_from_secs, seconds};
use crate::signaling::{parse_signaling, signaling_content, IceCandidate, ViewerMessage};

verus! {

broadcast use vstd::std_specs::hash::group_hash_axioms;

/// Video encoder settings
#[derive(Debug, Clone, Copy, PartialEq, Eq, Structural)]
pub struct EncoderConfig {
    /// Output height; the width follows the aspect ratio.
    pub height: u32,
    pub fps: u32,
    /// Target bitrate in kbit/s.
    pub bitrate_kbps: u32,
    /// Seconds between keyframes: the longest a joining viewer waits for a
    /// picture.
    pub keyframe_interval_secs: u32,
}

impl Default for EncoderConfig {
    fn default() -> (c: Self)
        ensures
            c == (EncoderConfig { height: 720, fps: 30, bitrate_kbps: 1500, keyframe_interval_secs: 2 }),
    {
        EncoderConfig { height: 720, fps: 30, bitrate_kbps: 1500, keyframe_interval_secs: 2 }
    }
}


fn owned(s: &str) -> (r: String)
    ensures
        r@ == s@,
{
    string_of(&chars_of(s))
}

/// Where the video comes from, as far as the encoder's command line tells.
#[derive(Debug, Clone)]
pub enum InputSource {
    /// A generated test pattern.
    TestPattern,
    /// An ffmpeg lavfi filter graph, such as a waiting screen.
    Lavfi(String),
    /// Anything ffmpeg can open: a file, a direct media URL.
    Ffmpeg(String),
    /// The standard output of another command, piped into ffmpeg.
    Pipe,
}

/// The characters of each argument, in order.
pub open spec fn arg_texts(v: Seq<String>) -> Seq<Seq<char>> {
    v.map_values(|a: String| a@)
}

/// The arguments that name the input.
pub open spec fn input_arg_texts(source: InputSource, fps: u32) -> Seq<Seq<char>> {
    match source {
        InputSource::TestPattern => seq![
            "-f"@,
            "lavfi"@,
            "-i"@,
            "testsrc2=size=1280x720:rate="@ + decimal(fps as nat),
        ],
        InputSource::Lavfi(graph) => seq!["-f"@, "lavfi"@, "-i"@, graph@],
        InputSource::Ffmpeg(input) => seq!["-i"@, input@],
        InputSource::Pipe => seq!["-i"@, "pipe:0"@],
    }
}

/// The encoder's command line after the program name: quiet ffmpeg reading the
/// input, then a silent, scaled, real-time VP8 encode at the configured bitrate
/// with a keyframe every interval, without lookahead or alt-ref frames, written
/// as IVF to standard output.
pub open spec fn ffmpeg_arg_texts(source: InputSource, config: EncoderConfig) -> Seq<Seq<char>> {
    let bitrate = decimal(config.bitrate_kbps as nat) + "k"@;
    let gop = decimal((config.fps * config.keyframe_interval_secs) as nat);
    seq!["-hide_banner"@, "-loglevel"@, "error"@, "-nostdin"@] + input_arg_texts(source, config.fps)
        + seq![
        "-an"@,
        "-vf"@,
        "scale=-2:"@ + decimal(config.height as nat) + ",fps="@ + decimal(config.fps as nat),
    ] + seq!["-c:v"@, "libvpx"@, "-deadline"@, "realtime"@, "-cpu-used"@, "8"@] + seq![
        "-b:v"@,
        bitrate,
        "-maxrate"@,
        bitrate,
        "-bufsize"@,
        bitrate,
    ] + seq!["-g"@, gop, "-keyint_min"@, gop] + seq![
        "-error-resilient"@,
        "1"@,
        "-auto-alt-ref"@,
        "0"@,
        "-lag-in-frames"@,
        "0"@,
    ] + seq!["-flush_packets"@, "1"@, "-f"@, "ivf"@, "pipe:1"@]
}

fn push_arg(args: &mut Vec<String>, a: &str)
    ensures
        arg_texts(final(args)@) == arg_texts(old(args)@).push(a@),
{
    let ghost before = args@;
    args.push(owned(a));
    assert(arg_texts(args@) =~= arg_texts(before).push(a@));
}

fn push_chars(args: &mut Vec<String>, a: &Vec<char>)
    ensures
        arg_texts(final(args)@) == arg_texts(old(args)@).push(a@),
{
    let ghost before = args@;
    args.push(string_of(a));
    assert(arg_texts(args@) =~= arg_texts(before).push(a@));
}

/// The encoder's command line after the program name, for an input and settings
/// (see [`ffmpeg_arg_texts`]).
pub fn ffmpeg_args(source: &InputSource, config: EncoderConfig) -> (args: Vec<String>)
    requires
        config.fps * config.keyframe_interval_secs <= u32::MAX,
    ensures
        arg_texts(args@) == ffmpeg_arg_texts(*source, config),
{
    let mut args: Vec<String> = Vec::new();
    push_arg(&mut args, "-hide_banner");
    push_arg(&mut args, "-loglevel");
    push_arg(&mut args, "error");
    push_arg(&mut args, "-nostdin");
    match source {
        InputSource::TestPattern => {
            push_arg(&mut args, "-f");
            push_arg(&mut args, "lavfi");
            push_arg(&mut args, "-i");
            let mut pattern = chars_of("testsrc2=size=1280x720:rate=");
            let fps = decimal_chars_u64(config.fps as u64);
            append_chars(&mut pattern, &fps);
            push_chars(&mut args, &pattern);
        },
        InputSource::Lavfi(graph) => {
            push_arg(&mut args, "-f");
            push_arg(&mut args, "lavfi");
            push_arg(&mut args, "-i");
            push_arg(&mut args, graph.as_str());
        },
        InputSource::Ffmpeg(input) => {
            push_arg(&mut args, "-i");
            push_arg(&mut args, input.as_str());
        },
        InputSource::Pipe => {
            push_arg(&mut args, "-i");
            push_arg(&mut args, "pipe:0");
        },
    }
    push_arg(&mut args, "-an");
    push_arg(&mut args, "-vf");
    let mut filter = chars_of("scale=-2:");
    let height = decimal_chars_u64(config.height as u64);
    append_chars(&mut filter, &height);
    append_str(&mut filter, ",fps=");
    let fps = decimal_chars_u64(config.fps as u64);
    append_chars(&mut filter, &fps);
    push_chars(&mut args, &filter);
    push_arg(&mut args, "-c:v");
    push_arg(&mut args, "libvpx");
    push_arg(&mut args, "-deadline");
    push_arg(&mut args, "realtime");
    push_arg(&mut args, "-cpu-used");
    push_arg(&mut args, "8");
    let mut bitrate = decimal_chars_u64(config.bitrate_kbps as u64);
    append_str(&mut bitrate, "k");
    push_arg(&mut args, "-b:v");
    push_chars(&mut args, &bitrate);
    push_arg(&mut args, "-maxrate");
    push_chars(&mut args, &bitrate);
    push_arg(&mut args, "-bufsize");
    push_chars(&mut args, &bitrate);
    let gop = decimal_chars_u64((config.fps * config.keyframe_interval_secs) as u64);
    push_arg(&mut args, "-g");
    push_chars(&mut args, &gop);
    push_arg(&mut args, "-keyint_min");
    push_chars(&mut args, &gop);
    push_arg(&mut args, "-error-resilient");
    push_arg(&mut args, "1");
    push_arg(&mut args, "-auto-alt-ref");
    push_arg(&mut args, "0");
    push_arg(&mut args, "-lag-in-frames");
    push_arg(&mut args, "0");
    push_arg(&mut args, "-flush_packets");
    push_arg(&mut args, "1");
    push_arg(&mut args, "-f");
    push_arg(&mut args, "ivf");
    push_arg(&mut args, "pipe:1");
    assert(arg_texts(args@) =~= ffmpeg_arg_texts(*source, config));
    args
}

/// Broadcaster settings
#[derive(Debug, Clone)]
pub struct BroadcastConfig {
    pub encoder: EncoderConfig,
    /// STUN servers. The default is the pair hardcoded in the desktop client;
    /// neither relays, so there is no TURN.
    pub ice_servers: Vec<String>,
    /// Local UDP addresses to gather candidates on. A wildcard binds every
    /// interface — Docker bridges included, whose STUN requests only ever time
    /// out — so name the real interface when there is a choice.
    pub bind_addrs: Vec<String>,
    /// The longest to wait for ICE gathering before sending the offer anyway.
    pub gather_timeout: Duration,
}

impl Default for BroadcastConfig {
    /// The default settings; the gathering timeout is three seconds.
    fn default() -> (c: Self)
        ensures
            c.encoder == (EncoderConfig { height: 720, fps: 30, bitrate_kbps: 1500, keyframe_interval_secs: 2 }),
            c.ice_servers@.map_values(|s: String| s@) == seq![
                "stun:turn.teamspeak.com:3478"@,
                "stun:turn2.teamspeak.com:3478"@,
            ],
            c.bind_addrs@.map_values(|s: String| s@) == seq!["0.0.0.0:0"@],
            c.gather_timeout == duration_from_secs(3),
    {
        let mut ice_servers: Vec<String> = Vec::new();
        ice_servers.push(owned("stun:turn.teamspeak.com:3478"));
        ice_servers.push(owned("stun:turn2.teamspeak.com:3478"));
        let mut bind_addrs: Vec<String> = Vec::new();
        bind_addrs.push(owned("0.0.0.0:0"));
        let c = BroadcastConfig {
            encoder: EncoderConfig::default(),
            ice_servers,
            bind_addrs,
            gather_timeout: seconds(3),
        };
        assert(c.ice_servers@.map_values(|s: String| s@) =~= seq![
            "stun:turn.teamspeak.com:3478"@,
            "stun:turn2.teamspeak.com:3478"@,
        ]);
        assert(c.bind_addrs@.map_values(|s: String| s@) =~= seq!["0.0.0.0:0"@]);
        c
    }
}

/// What a broadcaster reports about its viewers.
#[derive(Debug, Clone)]
pub enum BroadcastEvent {
    /// An offer to send to the viewer.
    Offer { viewer_id: u16, sdp: String },
    /// Media is flowing to this viewer.
    Connected { viewer_id: u16 },
    /// The peer connection is gone: failed, closed, or never answered.
    Gone { viewer_id: u16, reason: String },
}

/// A VP8 frame is a keyframe when the lowest bit of its first byte is clear.
pub open spec fn keyframe(frame: Seq<u8>) -> bool {
    frame.len() > 0 && frame[0] % 2 == 0
}

/// Whether an encoded VP8 frame is a keyframe.
pub fn is_keyframe(frame: &[u8]) -> (r: bool)
    ensures
        r == keyframe(frame@),
{
    if frame.len() == 0 {
        false
    } else {
        let b = frame[0];
        assert(b & 1 == b % 2) by (bit_vector);
        b & 0x01 == 0
    }
}


/// The viewer bookkeeping of a broadcaster: which peer-connection session is current for
/// each viewer. Every viewer task reports under the session it was started with, so a report
/// from a replaced session can be told apart and dropped.
pub struct ViewerSessions {
    viewers: HashMap<u16, u64>,
    next_session: u64,
}

impl ViewerSessions {
    /// The current session of each viewer.
    pub closed spec fn sessions(&self) -> Map<u16, u64> {
        self.viewers@
    }

    /// The last session number handed out (0: none yet).
    pub closed spec fn last_session(&self) -> u64 {
        self.next_session
    }

    /// No viewers, no sessions handed out.
    pub fn new() -> (r: ViewerSessions)
        ensures
            r.sessions() == Map::<u16, u64>::empty(),
            r.last_session() == 0,
    {
        ViewerSessions { viewers: HashMap::new(), next_session: 0 }
    }

    /// A viewer asked to join: it gets a new session, replacing any earlier one.
    pub fn add_viewer(&mut self, viewer_id: u16) -> (session: u64)
        requires
            old(self).last_session() < u64::MAX,
        ensures
            session == old(self).last_session() + 1,
            final(self).last_session() == session,
            final(self).sessions() == old(self).sessions().insert(viewer_id, session),
    {
        self.next_session = self.next_session + 1;
        let session = self.next_session;
        self.viewers.insert(viewer_id, session);
        session
    }

    /// Drop a viewer: it left, was kicked, or disconnected. Returns whether it was there.
    pub fn remove_viewer(&mut self, viewer_id: u16) -> (r: bool)
        ensures
            r == old(self).sessions().contains_key(viewer_id),
            final(self).sessions() == old(self).sessions().remove(viewer_id),
            final(self).last_session() == old(self).last_session(),
    {
        self.viewers.remove(&viewer_id).is_some()
    }

    /// Drop every viewer, e.g. when the stream stops.
    pub fn clear_viewers(&mut self)
        ensures
            final(self).sessions() == Map::<u16, u64>::empty(),
            final(self).last_session() == old(self).last_session(),
    {
        self.viewers.clear();
    }

    /// How many viewers are connected or connecting.
    pub fn viewer_count(&self) -> (n: usize)
        ensures
            n == self.sessions().len(),
    {
        self.viewers.len()
    }

    /// Signaling a viewer relayed: the viewer's current session and the message to
    /// hand to that session's task; nothing for an unknown viewer or an unreadable
    /// message.
    pub fn handle_signaling(&self, viewer_id: u16, json: &str) -> (r: Option<(u64, ViewerMessage)>)
        ensures
            match r {
                Some((session, m)) => {
                    &&& self.sessions().contains_key(viewer_id)
                    &&& session == self.sessions()[viewer_id]
                    &&& signaling_content(json@) == Some(m.content())
                },
                None => !self.sessions().contains_key(viewer_id) || signaling_content(json@) is None,
            },
    {
        let session = match self.viewers.get(&viewer_id) {
            Some(s) => *s,
            None => {
                return None;
            },
        };
        match parse_signaling(json) {
            Some(m) => Some((session, m)),
            None => None,
        }
    }

    /// A viewer task reported under `session`: the event, if that session is the viewer's
    /// current one (a viewer whose peer connection is gone is dropped); nothing otherwise.
    pub fn accept(&mut self, viewer_id: u16, session: u64, event: BroadcastEvent) -> (r: Option<
        BroadcastEvent,
    >)
        ensures
            ({
                let current = old(self).sessions().contains_key(viewer_id) && old(
                    self,
                ).sessions()[viewer_id] == session;
                &&& r == if current {
                    Some(event)
                } else {
                    None
                }
                &&& final(self).sessions() == if current && event is Gone {
                    old(self).sessions().remove(viewer_id)
                } else {
                    old(self).sessions()
                }
                &&& final(self).last_session() == old(self).last_session()
            }),
    {
        let current = match self.viewers.get(&viewer_id) {
            Some(s) => *s == session,
            None => false,
        };
        if !current {
            return None;
        }
        match event {
            BroadcastEvent::Gone { viewer_id: v, reason } => {
                self.viewers.remove(&viewer_id);
                Some(BroadcastEvent::Gone { viewer_id: v, reason })
            },
            other => Some(other),
        }
    }
}

/// The state of a viewer's peer connection, as far as a viewer task acts on it.
#[derive(Debug, Clone, Copy, PartialEq, Eq, Structural)]
pub enum PeerState {
    Connected,
    Failed,
    Closed,
    /// Any other state (new, connecting, disconnected)
    Other,
}

/// What reaches a viewer task.
#[derive(Debug, Clone)]
pub enum ViewerEvent {
    /// Signaling the viewer relayed
    Signal(ViewerMessage),
    /// The broadcaster dropped the viewer
    Removed,
    /// The peer connection changed state
    Peer(PeerState),
    /// An encoded frame, with the monotonic time in nanoseconds when it came
    Frame { data: Vec<u8>, now_ns: u64 },
    /// The viewer fell behind and frames were skipped
    Lagged,
    /// The encoder is gone
    FramesEnded,
}

/// What a viewer task does next.
#[derive(Debug, Clone)]
pub enum ViewerAction {
    /// Set the viewer's SDP answer as the remote description
    SetAnswer(String),
    /// Add one of the viewer's ICE candidates
    AddCandidate(IceCandidate),
    /// Skip the frames queued so far and start from the live edge
    Resubscribe,
    /// Report [`BroadcastEvent::Connected`]
    ReportConnected,
    /// Send a frame lasting `duration_ns`
    WriteFrame { data: Vec<u8>, duration_ns: u64 },
    /// End the task normally
    Finish,
    /// End the task: the peer connection failed or closed
    Fail(PeerState),
}

/// A viewer task's state.
#[derive(Debug, Clone)]
pub struct ViewerState {
    /// The viewer's answer has been set
    pub answered: bool,
    /// Candidates that came before the answer, in order
    pub pending: Vec<IceCandidate>,
    /// The peer connection has connected
    pub connected: bool,
    /// The next frame sent must be a keyframe
    pub need_keyframe: bool,
    /// When the last frame was sent
    pub last_frame_ns: Option<u64>,
}

/// A frame's duration when no frame came before it: 33 ms.
pub const FIRST_FRAME_NS: u64 = 33_000_000;

/// The candidates, each to be added.
pub open spec fn add_all(cs: Seq<IceCandidate>) -> Seq<ViewerAction> {
    cs.map_values(|c: IceCandidate| ViewerAction::AddCandidate(c))
}

/// How long a frame sent at `now` lasts: the real gap since the last one (none if the clock
/// did not move on), or 33 ms for the first.
pub open spec fn frame_duration(last: Option<u64>, now: u64) -> u64 {
    match last {
        Some(t) => if now >= t {
            (now - t) as u64
        } else {
            0
        },
        None => FIRST_FRAME_NS,
    }
}

impl ViewerState {
    /// A viewer that asked to join: no answer, no candidates, not connected, waiting for a
    /// keyframe.
    pub fn new() -> (s: ViewerState)
        ensures
            !s.answered,
            s.pending@ == Seq::<IceCandidate>::empty(),
            !s.connected,
            s.need_keyframe,
            s.last_frame_ns is None,
    {
        ViewerState {
            answered: false,
            pending: Vec::new(),
            connected: false,
            need_keyframe: true,
            last_frame_ns: None,
        }
    }
}

/// One step of a viewer task: its next state and what to do, in order. Candidates wait
/// for the answer and follow it; the first connection starts from the live edge and is
/// reported; a failed or closed connection ends the task; frames flow only once connected,
/// from a keyframe on (again after falling behind), each lasting the real gap since the
/// last.
pub fn viewer_step(state: ViewerState, event: ViewerEvent) -> (r: (ViewerState, Vec<ViewerAction>))
    ensures
        match event {
            ViewerEvent::Signal(ViewerMessage::Answer(sdp)) => {
                &&& r.0 == (ViewerState { answered: true, pending: r.0.pending, ..state })
                &&& r.0.pending@ == Seq::<IceCandidate>::empty()
                &&& r.1@ == seq![ViewerAction::SetAnswer(sdp)] + add_all(state.pending@)
            },
            ViewerEvent::Signal(ViewerMessage::Candidate(c)) => if state.answered {
                r.0 == state && r.1@ == seq![ViewerAction::AddCandidate(c)]
            } else {
                &&& r.0 == (ViewerState { pending: r.0.pending, ..state })
                &&& r.0.pending@ == state.pending@.push(c)
                &&& r.1@ == Seq::<ViewerAction>::empty()
            },
            ViewerEvent::Removed => r.0 == state && r.1@ == seq![ViewerAction::Finish],
            ViewerEvent::Peer(p) => match p {
                PeerState::Connected => if state.connected {
                    r.0 == state && r.1@ == Seq::<ViewerAction>::empty()
                } else {
                    r.0 == (ViewerState { connected: true, ..state }) && r.1@ == seq![
                        ViewerAction::Resubscribe,
                        ViewerAction::ReportConnected,
                    ]
                },
                PeerState::Failed | PeerState::Closed => r.0 == state && r.1@ == seq![
                    ViewerAction::Fail(p),
                ],
                PeerState::Other => r.0 == state && r.1@ == Seq::<ViewerAction>::empty(),
            },
            ViewerEvent::Frame { data, now_ns } => if !state.connected || (state.need_keyframe
                && !keyframe(data@)) {
                r.0 == state && r.1@ == Seq::<ViewerAction>::empty()
            } else {
                &&& r.0 == (ViewerState {
                    need_keyframe: false,
                    last_frame_ns: Some(now_ns),
                    ..state
                })
                &&& r.1@ == seq![
                    ViewerAction::WriteFrame {
                        data,
                        duration_ns: frame_duration(state.last_frame_ns, now_ns),
                    },
                ]
            },
            ViewerEvent::Lagged => if state.connected {
                r.0 == (ViewerState { need_keyframe: true, ..state }) && r.1@ == Seq::<
                    ViewerAction,
                >::empty()
            } else {
                r.0 == state && r.1@ == Seq::<ViewerAction>::empty()
            },
            ViewerEvent::FramesEnded => if state.connected {
                r.0 == state && r.1@ == seq![ViewerAction::Finish]
            } else {
                r.0 == state && r.1@ == Seq::<ViewerAction>::empty()
            },
        },
{
    let mut state = state;
    let mut actions: Vec<ViewerAction> = Vec::new();
    match event {
        ViewerEvent::Signal(ViewerMessage::Answer(sdp)) => {
            actions.push(ViewerAction::SetAnswer(sdp));
            state.answered = true;
            let mut pending: Vec<IceCandidate> = Vec::new();
            std::mem::swap(&mut pending, &mut state.pending);
            let ghost ps = pending@;
            let ghost first = actions@;
            for c in it: pending.into_iter()
                invariant
                    it.seq() == ps,
                    actions@ == first + add_all(ps.take(it.index() as int)),
            {
                proof {
                    let i = it.index() as int;
                    assert(ps.take(i + 1) =~= ps.take(i).push(ps[i]));
                    assert(add_all(ps.take(i + 1)) =~= add_all(ps.take(i)).push(
                        ViewerAction::AddCandidate(ps[i]),
                    ));
                }
                actions.push(ViewerAction::AddCandidate(c));
            }
            assert(ps.take(ps.len() as int) =~= ps);
        },
        ViewerEvent::Signal(ViewerMessage::Candidate(c)) => {
            if state.answered {
                actions.push(ViewerAction::AddCandidate(c));
            } else {
                state.pending.push(c);
            }
        },
        ViewerEvent::Removed => {
            actions.push(ViewerAction::Finish);
        },
        ViewerEvent::Peer(p) => {
            match p {
                PeerState::Connected => {
                    if !state.connected {
                        state.connected = true;
                        actions.push(ViewerAction::Resubscribe);
                        actions.push(ViewerAction::ReportConnected);
                    }
                },
                PeerState::Failed | PeerState::Closed => {
                    actions.push(ViewerAction::Fail(p));
                },
                PeerState::Other => {},
            }
        },
        ViewerEvent::Frame { data, now_ns } => {
            if state.connected && (!state.need_keyframe || is_keyframe(data.as_slice())) {
                let duration_ns = match state.last_frame_ns {
                    Some(t) => if now_ns >= t {
                        now_ns - t
                    } else {
                        0
                    },
                    None => FIRST_FRAME_NS,
                };
                state.need_keyframe = false;
                state.last_frame_ns = Some(now_ns);
                actions.push(ViewerAction::WriteFrame { data, duration_ns });
            }
        },
        ViewerEvent::Lagged => {
            if state.connected {
                state.need_keyframe = true;
            }
        },
        ViewerEvent::FramesEnded => {
            if state.connected {
                actions.push(ViewerAction::Finish);
            }
        },
    }
    (state, actions)
}

/// A report from a session that a later request replaced is never passed on.
pub proof fn replaced_session_ignored(sessions: Map<u16, u64>, viewer_id: u16, old_session: u64, new_session: u64)
    requires
        old_session != new_session,
    ensures
        !(sessions.insert(viewer_id, new_session).contains_key(viewer_id) && sessions.insert(
            viewer_id,
            new_session,
        )[viewer_id] == old_session),
{
}

} // verus!
