//! Replay of an event log.
//!
//! A `LogPlayer` owns the frames of a log, the topology that they set, and the
//! state of the network at its cursor.

pub mod fidelity;
pub mod inspect;
pub mod listing;
pub mod motion;
pub mod player;
pub mod readback;

use crate::codec::Wire;
use crate::score::scan::frame_views;
use crate::sim_log::schema::LogFrameV;
use crate::sim_log::writer::{decode_all, frames_in, starts_with_header, ReadError};
use crate::sim_log::{AsInfoW, LogEvent, LogFrame};
use player::{
    blank, blank_state, blank_states, node_place, node_ref_to_kind_id, scene_of, with_speakers,
    AppNode, LinkEdge, Replay, ReplayView, SceneView, SwitchNode, SwitchStateV,
};
use vstd::prelude::*;

verus! {

pub struct LogPlayer {
    pub frames: Vec<LogFrame>,
    pub apps: Vec<AppNode>,
    pub switches: Vec<SwitchNode>,
    pub links: Vec<LinkEdge>,
    /// The state of the network at the cursor.
    pub replay: Replay,
    /// The index of the next frame to play.
    pub cursor: usize,
    pub cursor_ns: u64,
    pub duration_ns: u64,
}

/// What a player holds.
#[verifier::ext_equal]
pub struct PlayerView {
    pub frames: Seq<LogFrameV>,
    pub scene: SceneView,
    pub replay: ReplayView,
    pub cursor: int,
    pub cursor_ns: u64,
}

impl View for LogPlayer {
    type V = PlayerView;

    open spec fn view(&self) -> PlayerView {
        PlayerView {
            frames: frame_views(self.frames@),
            scene: SceneView {
                apps: self.apps@,
                switches: self.switches@,
                links: self.links@,
                duration_ns: self.duration_ns,
            },
            replay: self.replay@,
            cursor: self.cursor as int,
            cursor_ns: self.cursor_ns,
        }
    }
}

/// The first place from `i` on of a frame after a time.
pub open spec fn after_from(f: Seq<LogFrameV>, at_ns: u64, i: int) -> int
    decreases f.len() - i,
{
    if i >= f.len() {
        f.len() as int
    } else if f[i].at_ns > at_ns {
        i
    } else {
        after_from(f, at_ns, i + 1)
    }
}

/// The first place from `i` on of a frame that is not before a time.
pub open spec fn not_before_from(f: Seq<LogFrameV>, at_ns: u64, i: int) -> int
    decreases f.len() - i,
{
    if i >= f.len() {
        f.len() as int
    } else if f[i].at_ns >= at_ns {
        i
    } else {
        not_before_from(f, at_ns, i + 1)
    }
}

/// The state after the frames from one place up to another were played.
pub open spec fn played(r: ReplayView, f: Seq<LogFrameV>, from: int, to: int) -> ReplayView
    decreases to - from,
{
    if to <= from {
        r
    } else {
        played(r, f, from, to - 1).after(f[to - 1].event)
    }
}

impl PlayerView {
    /// A player before it plays a log.
    pub open spec fn loaded(frames: Seq<LogFrameV>) -> PlayerView {
        let scene = scene_of(frames, frames.len() as int);
        PlayerView {
            frames,
            scene,
            replay: ReplayView {
                states: blank_states(scene.switches, scene.switches.len() as int),
                link_failed: Seq::empty(),
            },
            cursor: 0,
            cursor_ns: 0,
        }
    }

    /// The player at a time. Going forward plays frames; going back starts over.
    pub open spec fn sought(self, at_ns: u64) -> PlayerView {
        let s = if at_ns < self.cursor_ns {
            PlayerView { replay: self.replay.reset(), cursor: 0, ..self }
        } else {
            self
        };
        let to = after_from(s.frames, at_ns, s.cursor);
        PlayerView {
            replay: played(s.replay, s.frames, s.cursor, to),
            cursor: to,
            cursor_ns: at_ns,
            ..s
        }
    }
}

pub proof fn lemma_after_from(f: Seq<LogFrameV>, at_ns: u64, i: int)
    requires
        0 <= i <= f.len(),
    ensures
        i <= after_from(f, at_ns, i) <= f.len(),
        forall|j: int| i <= j < after_from(f, at_ns, i) ==> (#[trigger] f[j]).at_ns <= at_ns,
        after_from(f, at_ns, i) < f.len() ==> f[after_from(f, at_ns, i)].at_ns > at_ns,
    decreases f.len() - i,
{
    if i < f.len() && f[i].at_ns <= at_ns {
        lemma_after_from(f, at_ns, i + 1);
    }
}

pub proof fn lemma_after_unique(f: Seq<LogFrameV>, at_ns: u64, i: int, k: int)
    requires
        0 <= i <= k <= f.len(),
        forall|j: int| i <= j < k ==> (#[trigger] f[j]).at_ns <= at_ns,
        k < f.len() ==> f[k].at_ns > at_ns,
    ensures
        after_from(f, at_ns, i) == k,
    decreases f.len() - i,
{
    if i < k {
        assert(f[i].at_ns <= at_ns);
        lemma_after_unique(f, at_ns, i + 1, k);
    }
}

proof fn lemma_played(r: ReplayView, f: Seq<LogFrameV>, a: int, b: int, c: int)
    requires
        a <= b <= c,
    ensures
        played(played(r, f, a, b), f, b, c) == played(r, f, a, c),
    decreases c - b,
{
    if b < c {
        lemma_played(r, f, a, b, c - 1);
    }
}

/// Stopping on the way makes no difference: to go forward to a time and on to a
/// later one is to go to the later one.
pub proof fn stops_make_no_difference(p: PlayerView, a: u64, b: u64)
    requires
        0 <= p.cursor <= p.frames.len(),
        p.cursor_ns <= a <= b,
    ensures
        p.sought(a).sought(b) == p.sought(b),
{
    let f = p.frames;
    let m = after_from(f, a, p.cursor);
    lemma_after_from(f, a, p.cursor);
    let n = after_from(f, b, m);
    lemma_after_from(f, b, m);
    assert forall|j: int| p.cursor <= j < n implies (#[trigger] f[j]).at_ns <= b by {
        if j < m {
            assert(f[j].at_ns <= a);
        }
    }
    lemma_after_unique(f, b, p.cursor, n);
    lemma_played(p.replay, f, p.cursor, m, n);
}

fn name_speakers(switches: &mut Vec<SwitchNode>, ases: &Vec<AsInfoW>)
    ensures
        final(switches)@ == with_speakers(
            old(switches)@,
            ases.val(),
            ases@.len() as int,
        ),
{
    let ghost all = ases.val();
    let mut i: usize = 0;
    while i < ases.len()
        invariant
            i <= ases@.len(),
            all == ases.val(),
            switches@ == with_speakers(old(switches)@, all, i as int),
        decreases ases@.len() - i,
    {
        let border: u32 = ases[i].border_switch;
        let ip: u32 = ases[i].bgp_speaker_ip;
        assert(all[i as int] == ases@[i as int]@);
        let mut k: usize = 0;
        while k < switches.len() && switches[k].id != border
            invariant
                k <= switches@.len(),
                switches@ == with_speakers(old(switches)@, all, i as int),
                node_place(switches@, border, 0) == node_place(switches@, border, k as int),
            decreases switches@.len() - k,
        {
            k += 1;
        }
        if k < switches.len() {
            let mut s = switches[k];
            s.bgp_speaker_ip = Some(ip);
            switches.set(k, s);
        }
        i += 1;
    }
}

impl LogPlayer {
    /// A player for the bytes of a log.
    pub fn new(bytes: &[u8]) -> (r: Result<LogPlayer, ReadError>)
        ensures
            match frames_in(bytes@) {
                Err(f) => r matches Err(e) && e.fault() == f,
                Ok(s) => if starts_with_header(s) {
                    r matches Ok(p) && p@ == PlayerView::loaded(s)
                } else {
                    r matches Err(e) && e.fault() is BadHeader
                },
            },
    {
        let frames = match decode_all(bytes) {
            Ok(f) => f,
            Err(e) => return Err(e),
        };
        Ok(LogPlayer::load(frames))
    }

    fn load(frames: Vec<LogFrame>) -> (r: LogPlayer)
        ensures
            r@ == PlayerView::loaded(frame_views(frames@)),
    {
        let ghost all = frame_views(frames@);
        let mut apps: Vec<AppNode> = Vec::new();
        let mut switches: Vec<SwitchNode> = Vec::new();
        let mut links: Vec<LinkEdge> = Vec::new();
        let mut duration_ns: u64 = 0;
        let mut i: usize = 0;
        while i < frames.len()
            invariant
                i <= frames@.len(),
                all == frame_views(frames@),
                scene_of(all, i as int) == (SceneView {
                    apps: apps@,
                    switches: switches@,
                    links: links@,
                    duration_ns,
                }),
            decreases frames@.len() - i,
        {
            let f = &frames[i];
            assert(all[i as int] == f@);
            match &f.event {
                LogEvent::AppAdded { id, ip, dst_ip } => {
                    apps.push(AppNode { id: *id, ip: *ip, dst_ip: *dst_ip });
                },
                LogEvent::SwitchAdded { id, owner, .. } => {
                    switches.push(
                        SwitchNode { id: *id, owner: *owner, bgp_speaker_ip: None },
                    );
                },
                LogEvent::BgpConfigured { ases } => {
                    name_speakers(&mut switches, ases);
                },
                LogEvent::LinkAdded { id, a, a_port, b, b_port, config } => {
                    let (a_kind, a_id) = node_ref_to_kind_id(*a);
                    let (b_kind, b_id) = node_ref_to_kind_id(*b);
                    links.push(
                        LinkEdge {
                            id: *id,
                            a_kind,
                            a_id,
                            a_port: *a_port,
                            b_kind,
                            b_id,
                            b_port: *b_port,
                            bandwidth_bps: config.bandwidth_bps,
                            latency_ns: config.latency_ns,
                        },
                    );
                },
                _ => {},
            }
            if f.at_ns > duration_ns {
                duration_ns = f.at_ns;
            }
            i += 1;
        }
        let mut replay = Replay { states: Vec::new(), link_failed: Vec::new() };
        let mut k: usize = 0;
        assert(replay@.states =~= Seq::<SwitchStateV>::empty());
        while k < switches.len()
            invariant
                k <= switches@.len(),
                replay@.states == blank_states(switches@, k as int),
                replay@.link_failed == Seq::<(u32, bool)>::empty(),
            decreases switches@.len() - k,
        {
            let id: u32 = switches[k].id;
            let ghost before = replay@.states;
            if replay.find_state(id) >= replay.states.len() {
                replay.states.push(blank(id));
                assert(replay@.states =~= before.push(blank_state(id)));
            }
            k += 1;
        }
        LogPlayer {
            frames,
            apps,
            switches,
            links,
            replay,
            cursor: 0,
            cursor_ns: 0,
            duration_ns,
        }
    }

    pub fn duration_ns(&self) -> (r: u64)
        ensures
            r == self@.scene.duration_ns,
    {
        self.duration_ns
    }

    /// When the first event after a time is, or the end of the log.
    pub fn next_event_ns(&self, at_ns: u64) -> (r: u64)
        ensures
            ({
                let k = after_from(self@.frames, at_ns, 0);
                r == (if k < self@.frames.len() {
                    self@.frames[k].at_ns
                } else {
                    self@.scene.duration_ns
                })
            }),
    {
        let ghost f = self@.frames;
        let mut i: usize = 0;
        while i < self.frames.len()
            invariant
                i <= self.frames@.len(),
                f == self@.frames,
                after_from(f, at_ns, 0) == after_from(f, at_ns, i as int),
            decreases self.frames@.len() - i,
        {
            assert(f[i as int] == self.frames@[i as int]@);
            if self.frames[i].at_ns > at_ns {
                return self.frames[i].at_ns;
            }
            i += 1;
        }
        self.duration_ns
    }

    /// When the last event before a time is, or 0.
    pub fn prev_event_ns(&self, at_ns: u64) -> (r: u64)
        ensures
            ({
                let k = not_before_from(self@.frames, at_ns, 0);
                r == (if k > 0 {
                    self@.frames[k - 1].at_ns
                } else {
                    0
                })
            }),
    {
        let ghost f = self@.frames;
        let mut best: u64 = 0;
        let mut i: usize = 0;
        while i < self.frames.len()
            invariant
                i <= self.frames@.len(),
                f == self@.frames,
                best == (if i > 0 {
                    f[i - 1].at_ns
                } else {
                    0
                }),
                not_before_from(f, at_ns, 0) == not_before_from(f, at_ns, i as int),
            decreases self.frames@.len() - i,
        {
            assert(f[i as int] == self.frames@[i as int]@);
            if self.frames[i].at_ns >= at_ns {
                return best;
            }
            best = self.frames[i].at_ns;
            i += 1;
        }
        best
    }

    /// Moves the cursor to a time.
    pub fn seek(&mut self, at_ns: u64)
        requires
            old(self).cursor <= old(self).frames@.len(),
        ensures
            final(self)@ == old(self)@.sought(at_ns),
            final(self).cursor <= final(self).frames@.len(),
    {
        let ghost before = self@;
        if at_ns < self.cursor_ns {
            self.replay.clear();
            self.cursor = 0;
        }
        let ghost s = self@;
        let ghost from = self.cursor as int;
        while self.cursor < self.frames.len() && self.frames[self.cursor].at_ns <= at_ns
            invariant
                from <= self.cursor <= self.frames@.len(),
                s.cursor == from,
                self@ == (PlayerView { replay: self@.replay, cursor: self@.cursor, ..s }),
                self@.replay == played(s.replay, s.frames, from, self.cursor as int),
                after_from(s.frames, at_ns, from) == after_from(
                    s.frames,
                    at_ns,
                    self.cursor as int,
                ),
            decreases self.frames@.len() - self.cursor,
        {
            assert(s.frames[self.cursor as int] == self.frames@[self.cursor as int]@);
            self.replay.apply(&self.frames[self.cursor]);
            self.cursor = self.cursor + 1;
        }
        assert(self.cursor < self.frames@.len() ==> s.frames[self.cursor as int]
            == self.frames@[self.cursor as int]@);
        self.cursor_ns = at_ns;
        assert(self@ =~= before.sought(at_ns));
    }
}

} // verus!
