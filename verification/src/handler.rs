use vstd::prelude::*;

use crate::message::{spec_decode, spec_encode, PingMessage};
use crate::spec_nonce_of;

verus! {

/// The round trip reported with an accepted pong: how long the latest ping
/// has been outstanding, and zero if the clock ran backwards meanwhile.
pub open spec fn spec_elapsed(last_ping: u64, now: u64) -> u64 {
    if now >= last_ping {
        (now - last_ping) as u64
    } else {
        0
    }
}

/// When a pong with the given nonce counts as the answer to an in-flight
/// ping: the session is tracked, a ping is outstanding, and the nonce equals
/// the one derived from the latest probe time.
pub open spec fn spec_pong_accepted(m: Map<u64, StatusModel>, session_id: u64, nonce: u32) -> bool {
    m.contains_key(session_id) && m[session_id].processing && nonce == spec_nonce_of(
        m[session_id].last_ping,
    )
}

/// Timer token under which the periodic probe tick fires.
pub const SEND_PING_TOKEN: u64 = 0;

/// Timer token under which the periodic timeout check fires.
pub const CHECK_TIMEOUT_TOKEN: u64 = 1;

/// Stable identity of a remote peer, derived from its public key; it outlives
/// any one session to that peer.
#[derive(Clone, Debug, PartialEq, Eq)]
pub struct PeerId {
    pub bytes: Vec<u8>,
}

impl View for PeerId {
    type V = Seq<u8>;

    open spec fn view(&self) -> Seq<u8> {
        self.bytes@
    }
}

impl PeerId {
    /// Wraps raw identity bytes.
    pub fn new(bytes: Vec<u8>) -> (p: PeerId)
        ensures
            p@ == bytes@,
    {
        PeerId { bytes }
    }

    /// A copy of this identity with the same bytes.
    pub fn duplicate(&self) -> (p: PeerId)
        ensures
            p@ == self@,
    {
        let bytes = self.bytes.clone();
        proof {
            assert(bytes@ =~= self.bytes@);
        }
        PeerId { bytes }
    }
}

/// Liveness events, delivered to the host application.
#[derive(Clone, Debug, PartialEq, Eq)]
pub enum Event {
    /// Peer sent a ping to us.
    Ping(PeerId),
    /// Peer answered our ping; the round trip took the given milliseconds.
    Pong(PeerId, u64),
    /// Peer has an unanswered ping older than the timeout.
    Timeout(PeerId),
    /// Peer sent something unexpected: an undecodable payload or a pong that
    /// matches no outstanding ping.
    UnexpectedError(PeerId),
}

/// The mathematical shape of an `Event`: the peer as its identity bytes.
pub enum EventModel {
    Ping(Seq<u8>),
    Pong(Seq<u8>, u64),
    Timeout(Seq<u8>),
    UnexpectedError(Seq<u8>),
}

impl View for Event {
    type V = EventModel;

    open spec fn view(&self) -> EventModel {
        match self {
            Event::Ping(peer) => EventModel::Ping(peer@),
            Event::Pong(peer, elapsed) => EventModel::Pong(peer@, *elapsed),
            Event::Timeout(peer) => EventModel::Timeout(peer@),
            Event::UnexpectedError(peer) => EventModel::UnexpectedError(peer@),
        }
    }
}

/// Liveness state of one tracked session.
#[derive(Clone, Debug)]
pub struct PingStatus {
    /// True while a ping sent on this session is still unanswered.
    pub processing: bool,
    /// Milliseconds since the epoch at which the latest ping was issued; also
    /// the basis of that ping's nonce.
    pub last_ping: u64,
    /// Identity of the session's remote peer.
    pub peer_id: PeerId,
}

/// The mathematical shape of a `PingStatus`.
pub struct StatusModel {
    pub processing: bool,
    pub last_ping: u64,
    pub peer: Seq<u8>,
}

impl View for PingStatus {
    type V = StatusModel;

    open spec fn view(&self) -> StatusModel {
        StatusModel { processing: self.processing, last_ping: self.last_ping, peer: self.peer_id@ }
    }
}

impl PingStatus {
    /// The nonce a pong must echo to answer this session's latest ping: not a
    /// security value, purely a correlation tag derived from the probe time.
    pub fn nonce(&self) -> (n: u32)
        ensures
            n == spec_nonce_of(self.last_ping),
    {
        crate::nonce_of_millis(self.last_ping)
    }

    /// Milliseconds since this session's latest ping was issued, and zero if
    /// the clock ran backwards meanwhile.
    pub fn elapsed(&self, now: u64) -> (d: u64)
        ensures
            d == spec_elapsed(self.last_ping, now),
    {
        if now >= self.last_ping {
            now - self.last_ping
        } else {
            0
        }
    }
}

/// True when no session id occurs twice.
spec fn entries_wf(s: Seq<(u64, PingStatus)>) -> bool {
    forall|i: int, j: int| 0 <= i < j < s.len() ==> s[i].0 != s[j].0
}

/// The keyed map that a sequence of entries stands for; a later entry for the
/// same key would win, and well-formed sequences have no such pair.
spec fn entries_map(s: Seq<(u64, PingStatus)>) -> Map<u64, StatusModel>
    decreases s.len(),
{
    if s.len() == 0 {
        Map::empty()
    } else {
        entries_map(s.drop_last()).insert(s.last().0, s.last().1@)
    }
}

proof fn lemma_entries_map_contains(s: Seq<(u64, PingStatus)>, k: u64)
    ensures
        entries_map(s).contains_key(k) <==> exists|i: int| 0 <= i < s.len() && s[i].0 == k,
    decreases s.len(),
{
    if s.len() > 0 {
        lemma_entries_map_contains(s.drop_last(), k);
        if s.last().0 == k {
            assert(s[s.len() - 1].0 == k);
        } else if entries_map(s).contains_key(k) {
            let i = choose|i: int| 0 <= i < s.drop_last().len() && s.drop_last()[i].0 == k;
            assert(s[i].0 == k);
        } else if exists|i: int| 0 <= i < s.len() && s[i].0 == k {
            let i = choose|i: int| 0 <= i < s.len() && s[i].0 == k;
            assert(s.drop_last()[i].0 == k);
        }
    }
}

proof fn lemma_entries_map_update(s: Seq<(u64, PingStatus)>, i: int, status: PingStatus)
    requires
        entries_wf(s),
        0 <= i < s.len(),
    ensures
        entries_wf(s.update(i, (s[i].0, status))),
        entries_map(s.update(i, (s[i].0, status))) == entries_map(s).insert(s[i].0, status@),
{
    let k = s[i].0;
    let t = s.update(i, (k, status));
    assert(entries_wf(t));
    assert forall|k2: u64| #[trigger] entries_map(t).contains_key(k2) == entries_map(s).insert(
        k,
        status@,
    ).contains_key(k2) by {
        lemma_entries_map_contains(s, k2);
        lemma_entries_map_contains(t, k2);
        if exists|j: int| 0 <= j < s.len() && s[j].0 == k2 {
            let j = choose|j: int| 0 <= j < s.len() && s[j].0 == k2;
            assert(t[j].0 == k2);
        }
        if exists|j: int| 0 <= j < t.len() && t[j].0 == k2 {
            let j = choose|j: int| 0 <= j < t.len() && t[j].0 == k2;
            assert(s[j].0 == k2);
        }
    }
    assert forall|k2: u64| entries_map(t).contains_key(k2) implies #[trigger] entries_map(t)[k2]
        == entries_map(s).insert(k, status@)[k2] by {
        lemma_entries_map_contains(t, k2);
        let j = choose|j: int| 0 <= j < t.len() && t[j].0 == k2;
        lemma_entries_map_index(t, j);
        if k2 != k {
            assert(s[j] == t[j]);
            lemma_entries_map_index(s, j);
        } else {
            assert(j == i);
        }
    }
    assert(entries_map(t) =~= entries_map(s).insert(k, status@));
}

proof fn lemma_entries_map_index(s: Seq<(u64, PingStatus)>, i: int)
    requires
        entries_wf(s),
        0 <= i < s.len(),
    ensures
        entries_map(s).contains_key(s[i].0),
        entries_map(s)[s[i].0] == s[i].1@,
    decreases s.len(),
{
    if i == s.len() - 1 {
    } else {
        assert(entries_wf(s.drop_last()));
        lemma_entries_map_index(s.drop_last(), i);
        assert(s.drop_last()[i] == s[i]);
        assert(s.last().0 != s[i].0);
    }
}

/// A session whose ping is still unanswered is never re-probed: a probe tick
/// leaves its record — flag and probe timestamp alike — exactly as it was,
/// until an accepted pong clears the flag or the session closes.
pub proof fn lemma_at_most_one_outstanding(m: Map<u64, StatusModel>, now: u64, session_id: u64)
    requires
        m.contains_key(session_id),
        m[session_id].processing,
    ensures
        spec_ping_tick(m, now).contains_key(session_id),
        spec_ping_tick(m, now)[session_id] == m[session_id],
{
}

/// Every session that was eligible at a probe tick will accept a pong that
/// echoes the tick's shared nonce: the one broadcast payload carries the nonce
/// derived from `now`, and the tick stamps each eligible session with that
/// same `now`.
pub proof fn lemma_shared_nonce_broadcast(m: Map<u64, StatusModel>, now: u64, session_id: u64)
    requires
        m.contains_key(session_id),
        !m[session_id].processing,
    ensures
        spec_pong_accepted(spec_ping_tick(m, now), session_id, spec_nonce_of(now)),
{
}

/// Timeouts are not deduplicated: once a session counts as timed out, it
/// counts as timed out at every later check while its record stays unchanged.
pub proof fn lemma_timeout_repeats(
    m: Map<u64, StatusModel>,
    timeout: u64,
    session_id: u64,
    now1: u64,
    now2: u64,
)
    requires
        spec_timed_out(m, timeout, session_id, now1),
        now1 <= now2,
    ensures
        spec_timed_out(m, timeout, session_id, now2),
{
}

/// An accepted pong reports the true round trip: a session that was idle
/// before a probe tick at `t0` accepts the pong carrying that tick's shared
/// nonce, and when the pong arrives at `now`, at or after the probe, the
/// round trip it reports is exactly `now - t0`.
pub proof fn lemma_round_trip_duration(
    m: Map<u64, StatusModel>,
    session_id: u64,
    t0: u64,
    now: u64,
)
    requires
        m.contains_key(session_id),
        !m[session_id].processing,
        t0 <= now,
    ensures
        spec_pong_accepted(spec_ping_tick(m, t0), session_id, spec_nonce_of(t0)),
        spec_elapsed(spec_ping_tick(m, t0)[session_id].last_ping, now) == now - t0,
{
}

/// Opening a session twice tracks it once: the second open changes nothing,
/// whatever peer identity or time it carries — in particular the first
/// probe timestamp survives.
pub proof fn lemma_idempotent_open(
    m: Map<u64, StatusModel>,
    session_id: u64,
    peer1: Seq<u8>,
    now1: u64,
    peer2: Seq<u8>,
    now2: u64,
)
    ensures
        spec_open(spec_open(m, session_id, peer1, now1), session_id, peer2, now2) == spec_open(
            m,
            session_id,
            peer1,
            now1,
        ),
{
}

#[verifier::external_type_specification]
#[verifier::external_body]
#[verifier::reject_recursive_types(T)]
pub struct ExSyncSender<T>(std::sync::mpsc::SyncSender<T>);

/// Relies on generic_channel::Sender::try_send for std's SyncSender: it hands
/// the event to the channel without ever blocking, and reports failure when
/// the channel is full or its receiver is gone. Whether the event is delivered
/// depends on the consumer, so nothing is promised of the outcome.
#[verifier::external_body]
fn channel_try_send(
    sender: &mut std::sync::mpsc::SyncSender<Event>,
    event: Event,
) -> (delivered: bool)
{
    generic_channel::Sender::try_send(sender, event).is_ok()
}

/// Opening a session: a fresh idle record is added unless the session is
/// already tracked, in which case nothing changes.
pub open spec fn spec_open(
    m: Map<u64, StatusModel>,
    session_id: u64,
    peer: Seq<u8>,
    now: u64,
) -> Map<u64, StatusModel> {
    if m.contains_key(session_id) {
        m
    } else {
        m.insert(session_id, StatusModel { processing: false, last_ping: now, peer })
    }
}

/// One probe tick: every tracked session without an in-flight ping is stamped
/// with `now` and marked in flight; a session already being probed is left
/// exactly as it is, so at most one ping is ever outstanding per session.
pub open spec fn spec_ping_tick(m: Map<u64, StatusModel>, now: u64) -> Map<u64, StatusModel> {
    Map::new(
        |sid: u64| m.contains_key(sid),
        |sid: u64|
            if m[sid].processing {
                m[sid]
            } else {
                StatusModel { processing: true, last_ping: now, peer: m[sid].peer }
            },
    )
}

/// When a session counts as timed out at `now`: a ping is in flight and has
/// been outstanding for at least `timeout` milliseconds.
pub open spec fn spec_timed_out(
    m: Map<u64, StatusModel>,
    timeout: u64,
    session_id: u64,
    now: u64,
) -> bool {
    m.contains_key(session_id) && m[session_id].processing && spec_elapsed(
        m[session_id].last_ping,
        now,
    ) >= timeout
}

/// The one payload of a probe tick and the sessions it goes to.
pub struct PingBatch {
    pub data: Vec<u8>,
    pub targets: Vec<u64>,
}

/// What a probe tick over the sessions `m` must hand back at `now`: no batch
/// exactly when no session was eligible; otherwise one single `Ping` payload
/// carrying the nonce derived from `now`, addressed once to each session that
/// had no ping in flight and to nothing else.
pub open spec fn spec_probe_batch(
    m: Map<u64, StatusModel>,
    now: u64,
    batch: Option<PingBatch>,
) -> bool {
    match batch {
        Some(b) => b.data@ == spec_encode(PingMessage::Ping { nonce: spec_nonce_of(now) })
            && b.targets@.no_duplicates() && b.targets@.len() > 0 && (forall|sid: u64|
            #[trigger] b.targets@.contains(sid) <==> (m.contains_key(sid)
                && !m[sid].processing)),
        None => forall|sid: u64| #[trigger] m.contains_key(sid) ==> m[sid].processing,
    }
}

/// The timed-out sessions found by one timeout check, and one event naming
/// each one's peer.
pub struct TimeoutReport {
    pub sessions: Vec<u64>,
    pub events: Vec<Event>,
}

/// What a timeout check over the sessions `m` must hand back at `now`: each
/// timed-out session exactly once, with one timeout event for its peer —
/// repeated checks report the same session again for as long as it stays
/// timed out.
pub open spec fn spec_timeout_report(
    m: Map<u64, StatusModel>,
    timeout: u64,
    now: u64,
    report: TimeoutReport,
) -> bool {
    &&& report.sessions@.no_duplicates()
    &&& (forall|sid: u64| #[trigger] report.sessions@.contains(sid) <==> spec_timed_out(
        m,
        timeout,
        sid,
        now,
    ))
    &&& report.events@.len() == report.sessions@.len()
    &&& (forall|x: int|
        0 <= x < report.sessions@.len() ==> m.contains_key(#[trigger] report.sessions@[x])
            && report.events@[x]@ == EventModel::Timeout(m[report.sessions@[x]].peer))
}

/// What one inbound buffer leads to: possibly a payload to send back on the
/// same session, possibly one event for the host, and possibly a request to
/// close the session. The close request is how misbehaviour on an untracked
/// session is reported: with no peer identity to name in an event, the
/// handler asks the transport to drop the session instead.
pub struct RecvOutcome {
    pub reply: Option<Vec<u8>>,
    pub event: Option<Event>,
    pub close: Option<u64>,
}

/// What one timer firing leads to: a probe batch under the probe token, a
/// timeout report under the timeout token.
pub enum NotifyOutcome {
    Probe(Option<PingBatch>),
    Timeouts(TimeoutReport),
}

/// The liveness protocol handler: one record per tracked session, probed every
/// `interval` milliseconds and declared timed out after `timeout` milliseconds
/// without an answer.
pub struct PingHandler {
    interval: u64,
    timeout: u64,
    connected_session_ids: Vec<(u64, PingStatus)>,
    event_sender: std::sync::mpsc::SyncSender<Event>,
}

impl View for PingHandler {
    type V = Map<u64, StatusModel>;

    /// The tracked sessions, as a map from session id to liveness state.
    closed spec fn view(&self) -> Map<u64, StatusModel> {
        entries_map(self.connected_session_ids@)
    }
}

impl PingHandler {
    /// No session id is tracked twice.
    pub closed spec fn wf(&self) -> bool {
        entries_wf(self.connected_session_ids@)
    }

    /// Milliseconds between two probe ticks.
    pub closed spec fn spec_interval(&self) -> u64 {
        self.interval
    }

    /// Milliseconds an unanswered ping may age before the peer counts as
    /// timed out.
    pub closed spec fn spec_timeout(&self) -> u64 {
        self.timeout
    }

    /// The channel end this handler pushes its events into.
    pub closed spec fn spec_sender(&self) -> std::sync::mpsc::SyncSender<Event> {
        self.event_sender
    }

    /// Both ticks leave the configuration as construction fixed it.
    pub open spec fn same_config(&self, other: &PingHandler) -> bool {
        self.spec_interval() == other.spec_interval() && self.spec_timeout()
            == other.spec_timeout()
    }

    /// A handler that tracks nothing yet and will deliver its events through
    /// `event_sender`.
    pub fn new(interval: u64, timeout: u64, event_sender: std::sync::mpsc::SyncSender<Event>) -> (h:
        PingHandler)
        ensures
            h.wf(),
            h@ == Map::<u64, StatusModel>::empty(),
            h.spec_interval() == interval,
            h.spec_timeout() == timeout,
            h.spec_sender() == event_sender,
    {
        PingHandler { interval, timeout, connected_session_ids: Vec::new(), event_sender }
    }

    /// The two recurring timer registrations the handler asks the transport
    /// scheduler for: a probe tick every `interval` and a timeout check every
    /// `timeout` milliseconds, each under its token.
    pub fn init(&self) -> (registrations: Vec<(u64, u64)>)
        ensures
            registrations@ == seq![
                (self.spec_interval(), SEND_PING_TOKEN),
                (self.spec_timeout(), CHECK_TIMEOUT_TOKEN),
            ],
    {
        let mut registrations: Vec<(u64, u64)> = Vec::new();
        registrations.push((self.interval, SEND_PING_TOKEN));
        registrations.push((self.timeout, CHECK_TIMEOUT_TOKEN));
        proof {
            assert(registrations@ =~= seq![
                (self.spec_interval(), SEND_PING_TOKEN),
                (self.spec_timeout(), CHECK_TIMEOUT_TOKEN),
            ]);
        }
        registrations
    }

    /// Pushes one event to the host, best effort: a full or closed channel
    /// loses the event rather than stalling the protocol. Reports whether the
    /// event was taken.
    pub fn send_event(&mut self, event: Event) -> (delivered: bool)
        ensures
            final(self)@ == old(self)@,
            final(self).wf() == old(self).wf(),
            final(self).same_config(old(self)),
    {
        channel_try_send(&mut self.event_sender, event)
    }

    /// The position of the entry for `session_id`, if one exists.
    fn find_index(&self, session_id: u64) -> (r: Option<usize>)
        ensures
            match r {
                Some(i) => i < self.connected_session_ids@.len()
                    && self.connected_session_ids@[i as int].0 == session_id,
                None => forall|j: int|
                    0 <= j < self.connected_session_ids@.len()
                        ==> self.connected_session_ids@[j].0 != session_id,
            },
    {
        let n = self.connected_session_ids.len();
        let mut i: usize = 0;
        while i < n
            invariant
                i <= n,
                n == self.connected_session_ids@.len(),
                forall|j: int| 0 <= j < i ==> self.connected_session_ids@[j].0 != session_id,
            decreases n - i,
        {
            if self.connected_session_ids[i].0 == session_id {
                return Some(i);
            }
            i = i + 1;
        }
        None
    }

    /// Session open. With a known peer identity the session becomes tracked,
    /// idempotently: a second open of a tracked session changes nothing, not
    /// even its probe timestamp. Without one the handler tracks nothing and
    /// asks the transport to close the session.
    pub fn connected(&mut self, session_id: u64, remote_peer: Option<PeerId>, now: u64) -> (close:
        Option<u64>)
        requires
            old(self).wf(),
        ensures
            final(self).wf(),
            final(self).same_config(old(self)),
            match remote_peer {
                Some(peer) => final(self)@ == spec_open(old(self)@, session_id, peer@, now)
                    && close is None,
                None => final(self)@ == old(self)@ && close == Some(session_id),
            },
    {
        match remote_peer {
            Some(peer) => {
                let ghost s0 = self.connected_session_ids@;
                match self.find_index(session_id) {
                    Some(i) => {
                        proof {
                            lemma_entries_map_index(s0, i as int);
                        }
                    },
                    None => {
                        proof {
                            lemma_entries_map_contains(s0, session_id);
                        }
                        let status = PingStatus { processing: false, last_ping: now, peer_id: peer };
                        self.connected_session_ids.push((session_id, status));
                        proof {
                            let s1 = self.connected_session_ids@;
                            assert(s1.drop_last() =~= s0);
                            assert(entries_map(s1) == entries_map(s0).insert(
                                session_id,
                                status@,
                            ));
                        }
                    },
                }
                None
            },
            None => Some(session_id),
        }
    }

    /// Session close: the session's record is dropped, if it had one. No
    /// error path.
    pub fn disconnected(&mut self, session_id: u64)
        requires
            old(self).wf(),
        ensures
            final(self).wf(),
            final(self).same_config(old(self)),
            final(self)@ == old(self)@.remove(session_id),
    {
        let ghost s0 = self.connected_session_ids@;
        match self.find_index(session_id) {
            Some(i) => {
                self.connected_session_ids.remove(i);
                proof {
                    let s1 = self.connected_session_ids@;
                    assert forall|a: int, b: int| 0 <= a < b < s1.len() implies s1[a].0
                        != s1[b].0 by {
                        let a0 = if a < i { a } else { a + 1 };
                        let b0 = if b < i { b } else { b + 1 };
                        assert(s1[a] == s0[a0] && s1[b] == s0[b0]);
                    }
                    assert forall|k: u64| #[trigger] entries_map(s1).contains_key(k)
                        == entries_map(s0).remove(session_id).contains_key(k) by {
                        lemma_entries_map_contains(s0, k);
                        lemma_entries_map_contains(s1, k);
                        if k == session_id {
                            if exists|j: int| 0 <= j < s1.len() && s1[j].0 == k {
                                let j = choose|j: int| 0 <= j < s1.len() && s1[j].0 == k;
                                let j0 = if j < i { j } else { j + 1 };
                                assert(s0[j0].0 == k && s0[i as int].0 == k);
                            }
                        } else {
                            if exists|j: int| 0 <= j < s0.len() && s0[j].0 == k {
                                let j0 = choose|j: int| 0 <= j < s0.len() && s0[j].0 == k;
                                let j = if j0 < i { j0 } else { j0 - 1 };
                                assert(s1[j].0 == k);
                            }
                            if exists|j: int| 0 <= j < s1.len() && s1[j].0 == k {
                                let j = choose|j: int| 0 <= j < s1.len() && s1[j].0 == k;
                                let j0 = if j < i { j } else { j + 1 };
                                assert(s0[j0].0 == k);
                            }
                        }
                    }
                    assert forall|k: u64| entries_map(s1).contains_key(k) implies
                        #[trigger] entries_map(s1)[k] == entries_map(s0).remove(session_id)[k] by {
                        lemma_entries_map_contains(s1, k);
                        let j = choose|j: int| 0 <= j < s1.len() && s1[j].0 == k;
                        let j0 = if j < i { j } else { j + 1 };
                        assert(s0[j0] == s1[j]);
                        lemma_entries_map_index(s1, j);
                        lemma_entries_map_index(s0, j0);
                    }
                    assert(entries_map(s1) =~= entries_map(s0).remove(session_id));
                }
            },
            None => {
                proof {
                    lemma_entries_map_contains(s0, session_id);
                    assert(entries_map(s0) =~= entries_map(s0).remove(session_id));
                }
            },
        }
    }

    /// Inbound bytes on a session. A `Ping` is always answered with a `Pong`
    /// echoing its nonce, tracked or not: the echo needs no outbound state
    /// and no peer identity. On a tracked session, a `Pong` is accepted
    /// exactly when a ping is in flight and the nonce matches the one derived
    /// from the latest probe time, and anything else — a stale, duplicated or
    /// forged pong, or undecodable bytes — is reported as peer misbehaviour
    /// and leaves the state untouched. On an untracked session the same
    /// misbehaviour has no peer identity to report against, so the handler
    /// asks the transport to close the session instead.
    pub fn received(&mut self, session_id: u64, data: &[u8], now: u64) -> (outcome: RecvOutcome)
        requires
            old(self).wf(),
        ensures
            final(self).wf(),
            final(self).same_config(old(self)),
            !old(self)@.contains_key(session_id) ==> final(self)@ == old(self)@
                && outcome.event is None && match spec_decode(data@) {
                Some(PingMessage::Ping { nonce }) => (outcome.reply matches Some(reply) && reply@
                    == spec_encode(PingMessage::Pong { nonce })) && outcome.close is None,
                Some(PingMessage::Pong { nonce }) => outcome.reply is None && outcome.close
                    == Some(session_id),
                None => outcome.reply is None && outcome.close == Some(session_id),
            },
            old(self)@.contains_key(session_id) ==> outcome.close is None && {
                let peer = old(self)@[session_id].peer;
                match spec_decode(data@) {
                    Some(PingMessage::Ping { nonce }) => final(self)@ == old(self)@ && (
                    outcome.reply matches Some(reply) && reply@ == spec_encode(
                        PingMessage::Pong { nonce },
                    )) && (outcome.event matches Some(e) && e@ == EventModel::Ping(peer)),
                    Some(PingMessage::Pong { nonce }) => outcome.reply is None && (
                    if spec_pong_accepted(old(self)@, session_id, nonce) {
                        final(self)@ == old(self)@.insert(
                            session_id,
                            StatusModel {
                                processing: false,
                                last_ping: old(self)@[session_id].last_ping,
                                peer,
                            },
                        ) && (outcome.event matches Some(e) && e@ == EventModel::Pong(
                            peer,
                            spec_elapsed(old(self)@[session_id].last_ping, now),
                        ))
                    } else {
                        final(self)@ == old(self)@ && (outcome.event matches Some(e) && e@
                            == EventModel::UnexpectedError(peer))
                    }),
                    None => final(self)@ == old(self)@ && outcome.reply is None && (
                    outcome.event matches Some(e) && e@ == EventModel::UnexpectedError(peer)),
                }
            },
    {
        let ghost s0 = self.connected_session_ids@;
        let i = match self.find_index(session_id) {
            Some(i) => {
                proof {
                    lemma_entries_map_index(s0, i as int);
                }
                i
            },
            None => {
                proof {
                    lemma_entries_map_contains(s0, session_id);
                }
                return match PingMessage::decode(data) {
                    Some(PingMessage::Ping { nonce }) => RecvOutcome {
                        reply: Some(PingMessage::build_pong(nonce)),
                        event: None,
                        close: None,
                    },
                    Some(PingMessage::Pong { nonce: _ }) => RecvOutcome {
                        reply: None,
                        event: None,
                        close: Some(session_id),
                    },
                    None => RecvOutcome { reply: None, event: None, close: Some(session_id) },
                };
            },
        };
        let peer = self.connected_session_ids[i].1.peer_id.duplicate();
        match PingMessage::decode(data) {
            Some(PingMessage::Ping { nonce }) => RecvOutcome {
                reply: Some(PingMessage::build_pong(nonce)),
                event: Some(Event::Ping(peer)),
                close: None,
            },
            Some(PingMessage::Pong { nonce }) => {
                let processing = self.connected_session_ids[i].1.processing;
                let last_ping = self.connected_session_ids[i].1.last_ping;
                if processing && nonce == self.connected_session_ids[i].1.nonce() {
                    let elapsed = self.connected_session_ids[i].1.elapsed(now);
                    let peer_again = peer.duplicate();
                    let status = PingStatus { processing: false, last_ping, peer_id: peer_again };
                    proof {
                        lemma_entries_map_update(s0, i as int, status);
                    }
                    self.connected_session_ids.set(i, (session_id, status));
                    RecvOutcome { reply: None, event: Some(Event::Pong(peer, elapsed)), close: None }
                } else {
                    RecvOutcome {
                        reply: None,
                        event: Some(Event::UnexpectedError(peer)),
                        close: None,
                    }
                }
            },
            None => RecvOutcome { reply: None, event: Some(Event::UnexpectedError(peer)), close: None },
        }
    }

    /// The probe tick. Marks every idle session as being probed, stamped with
    /// `now`, and returns the one payload to broadcast to exactly those
    /// sessions — all of them share the nonce derived from `now`, the same one
    /// each session's own record now expects. Sessions with a ping already in
    /// flight are skipped and left untouched.
    #[verifier::rlimit(60)]
    pub fn send_ping_tick(&mut self, now: u64) -> (batch: Option<PingBatch>)
        requires
            old(self).wf(),
        ensures
            final(self).wf(),
            final(self).same_config(old(self)),
            final(self)@ == spec_ping_tick(old(self)@, now),
            spec_probe_batch(old(self)@, now, batch),
    {
        let ghost s0 = self.connected_session_ids@;
        let ghost m0 = entries_map(s0);
        let mut peers: Vec<(u64, u32)> = Vec::new();
        let n = self.connected_session_ids.len();
        let mut idx: usize = 0;
        while idx < n
            invariant
                entries_wf(s0),
                idx <= n,
                n == s0.len(),
                self.connected_session_ids@.len() == s0.len(),
                self.interval == old(self).interval,
                self.timeout == old(self).timeout,
                forall|j: int|
                    0 <= j < s0.len() ==> #[trigger] self.connected_session_ids@[j].0 == s0[j].0,
                forall|j: int| idx <= j < s0.len() ==> self.connected_session_ids@[j] == s0[j],
                forall|j: int|
                    0 <= j < idx ==> #[trigger] self.connected_session_ids@[j].1@ == (
                    if s0[j].1@.processing {
                        s0[j].1@
                    } else {
                        StatusModel { processing: true, last_ping: now, peer: s0[j].1@.peer }
                    }),
                forall|x: int| 0 <= x < peers@.len() ==> #[trigger] peers@[x].1 == spec_nonce_of(now),
                forall|x: int|
                    0 <= x < peers@.len() ==> exists|j: int|
                        0 <= j < idx && s0[j].0 == #[trigger] peers@[x].0 && !s0[j].1@.processing,
                forall|j: int|
                    0 <= j < idx && !(#[trigger] s0[j].1@.processing) ==> exists|x: int|
                        0 <= x < peers@.len() && peers@[x].0 == s0[j].0,
                forall|x: int, y: int| 0 <= x < y < peers@.len() ==> peers@[x].0 != peers@[y].0,
            decreases n - idx,
        {
            let sid = self.connected_session_ids[idx].0;
            if !self.connected_session_ids[idx].1.processing {
                let peer_id = self.connected_session_ids[idx].1.peer_id.duplicate();
                let status = PingStatus { processing: true, last_ping: now, peer_id };
                let nonce = status.nonce();
                self.connected_session_ids.set(idx, (sid, status));
                proof {
                    assert forall|x: int| 0 <= x < peers@.len() implies #[trigger] peers@[x].0
                        != sid by {
                        let j = choose|j: int|
                            0 <= j < idx && s0[j].0 == peers@[x].0 && !s0[j].1@.processing;
                        assert(s0[j].0 != s0[idx as int].0);
                    }
                }
                let ghost peers_before = peers@;
                peers.push((sid, nonce));
                proof {
                    assert forall|j: int| 0 <= j <= idx && !(#[trigger] s0[j].1@.processing)
                        implies exists|x: int|
                        0 <= x < peers@.len() && peers@[x].0 == s0[j].0 by {
                        if j == idx {
                            assert(peers@[peers@.len() - 1].0 == s0[j].0);
                        } else {
                            let x = choose|x: int|
                                0 <= x < peers_before.len() && peers_before[x].0 == s0[j].0;
                            assert(peers@[x].0 == s0[j].0);
                        }
                    }
                }
            }
            idx = idx + 1;
        }
        proof {
            let s1 = self.connected_session_ids@;
            assert(spec_ping_tick(m0, now).dom() =~= m0.dom());
            assert forall|k: u64| #[trigger] entries_map(s1).contains_key(k) == spec_ping_tick(
                m0,
                now,
            ).contains_key(k) by {
                lemma_entries_map_contains(s0, k);
                lemma_entries_map_contains(s1, k);
                if exists|j: int| 0 <= j < s1.len() && s1[j].0 == k {
                    let j = choose|j: int| 0 <= j < s1.len() && s1[j].0 == k;
                    assert(s0[j].0 == k);
                }
                if exists|j: int| 0 <= j < s0.len() && s0[j].0 == k {
                    let j = choose|j: int| 0 <= j < s0.len() && s0[j].0 == k;
                    assert(s1[j].0 == k);
                }
            }
            assert forall|k: u64| entries_map(s1).contains_key(k) implies #[trigger] entries_map(
                s1,
            )[k] == spec_ping_tick(m0, now)[k] by {
                lemma_entries_map_contains(s1, k);
                let j = choose|j: int| 0 <= j < s1.len() && s1[j].0 == k;
                assert(entries_wf(s1));
                lemma_entries_map_index(s1, j);
                lemma_entries_map_index(s0, j);
            }
            assert(entries_map(s1) =~= spec_ping_tick(m0, now));
        }
        if peers.len() == 0 {
            proof {
                assert forall|sid: u64| #[trigger] m0.contains_key(sid) implies
                    m0[sid].processing by {
                    lemma_entries_map_contains(s0, sid);
                    let j = choose|j: int| 0 <= j < s0.len() && s0[j].0 == sid;
                    lemma_entries_map_index(s0, j);
                }
            }
            return None;
        }
        let first_nonce = peers[0].1;
        let data = PingMessage::build_ping(first_nonce);
        let mut targets: Vec<u64> = Vec::new();
        let m = peers.len();
        let mut x: usize = 0;
        while x < m
            invariant
                x <= m,
                m == peers@.len(),
                targets@.len() == x,
                forall|y: int| 0 <= y < x ==> #[trigger] targets@[y] == peers@[y].0,
            decreases m - x,
        {
            targets.push(peers[x].0);
            x = x + 1;
        }
        proof {
            assert forall|sid: u64| #[trigger] targets@.contains(sid) implies (m0.contains_key(sid)
                && !m0[sid].processing) by {
                let y = choose|y: int| 0 <= y < targets@.len() && targets@[y] == sid;
                let j = choose|j: int|
                    0 <= j < s0.len() && s0[j].0 == peers@[y].0 && !s0[j].1@.processing;
                lemma_entries_map_index(s0, j);
            }
            assert forall|sid: u64| m0.contains_key(sid) && !m0[sid].processing implies
                #[trigger] targets@.contains(sid) by {
                lemma_entries_map_contains(s0, sid);
                let j = choose|j: int| 0 <= j < s0.len() && s0[j].0 == sid;
                lemma_entries_map_index(s0, j);
                let y = choose|y: int| 0 <= y < peers@.len() && peers@[y].0 == s0[j].0;
                assert(targets@[y] == sid);
            }
            assert(targets@.no_duplicates()) by {
                assert forall|a: int, b: int|
                    0 <= a < targets@.len() && 0 <= b < targets@.len() && a != b implies
                    targets@[a] != targets@[b] by {
                    if a < b {
                        assert(peers@[a].0 != peers@[b].0);
                    } else {
                        assert(peers@[b].0 != peers@[a].0);
                    }
                }
            }
        }
        Some(PingBatch { data, targets })
    }

    /// The timeout check. Reports every session whose ping has been
    /// outstanding for at least the configured timeout — once per check, and
    /// again at every later check while the state lasts. It clears nothing
    /// and removes nothing: what to do about a silent peer is the host's
    /// decision.
    #[verifier::rlimit(60)]
    pub fn check_timeout_tick(&self, now: u64) -> (report: TimeoutReport)
        requires
            self.wf(),
        ensures
            spec_timeout_report(self@, self.spec_timeout(), now, report),
    {
        let ghost s0 = self.connected_session_ids@;
        let ghost m0 = entries_map(s0);
        let mut sessions: Vec<u64> = Vec::new();
        let mut events: Vec<Event> = Vec::new();
        let n = self.connected_session_ids.len();
        let mut idx: usize = 0;
        while idx < n
            invariant
                entries_wf(s0),
                idx <= n,
                n == s0.len(),
                s0 == self.connected_session_ids@,
                m0 == entries_map(s0),
                self.timeout == self.spec_timeout(),
                events@.len() == sessions@.len(),
                forall|x: int|
                    0 <= x < sessions@.len() ==> exists|j: int|
                        0 <= j < idx && s0[j].0 == #[trigger] sessions@[x]
                            && s0[j].1@.processing && spec_elapsed(s0[j].1@.last_ping, now)
                            >= self.spec_timeout(),
                forall|j: int|
                    0 <= j < idx && (#[trigger] s0[j].1@.processing) && spec_elapsed(
                        s0[j].1@.last_ping,
                        now,
                    ) >= self.spec_timeout() ==> exists|x: int|
                        0 <= x < sessions@.len() && sessions@[x] == s0[j].0,
                forall|x: int, y: int|
                    0 <= x < y < sessions@.len() ==> sessions@[x] != sessions@[y],
                forall|x: int|
                    0 <= x < sessions@.len() ==> exists|j: int|
                        0 <= j < s0.len() && s0[j].0 == #[trigger] sessions@[x] && events@[x]@
                            == EventModel::Timeout(s0[j].1@.peer),
            decreases n - idx,
        {
            let processing = self.connected_session_ids[idx].1.processing;
            let elapsed = self.connected_session_ids[idx].1.elapsed(now);
            if processing && elapsed >= self.timeout {
                let sid = self.connected_session_ids[idx].0;
                proof {
                    assert forall|x: int| 0 <= x < sessions@.len() implies #[trigger] sessions@[x]
                        != sid by {
                        let j = choose|j: int|
                            0 <= j < idx && s0[j].0 == sessions@[x] && s0[j].1@.processing
                                && spec_elapsed(s0[j].1@.last_ping, now) >= self.spec_timeout();
                        assert(s0[j].0 != s0[idx as int].0);
                    }
                }
                let peer_id = self.connected_session_ids[idx].1.peer_id.duplicate();
                let ghost sessions_before = sessions@;
                sessions.push(sid);
                events.push(Event::Timeout(peer_id));
                proof {
                    assert forall|j: int|
                        0 <= j <= idx && (#[trigger] s0[j].1@.processing) && spec_elapsed(
                            s0[j].1@.last_ping,
                            now,
                        ) >= self.spec_timeout() implies exists|x: int|
                        0 <= x < sessions@.len() && sessions@[x] == s0[j].0 by {
                        if j == idx {
                            assert(sessions@[sessions@.len() - 1] == s0[j].0);
                        } else {
                            let x = choose|x: int|
                                0 <= x < sessions_before.len() && sessions_before[x] == s0[j].0;
                            assert(sessions@[x] == s0[j].0);
                        }
                    }
                }
            }
            idx = idx + 1;
        }
        proof {
            assert forall|sid: u64| #[trigger] sessions@.contains(sid) implies spec_timed_out(
                m0,
                self.spec_timeout(),
                sid,
                now,
            ) by {
                let x = choose|x: int| 0 <= x < sessions@.len() && sessions@[x] == sid;
                let j = choose|j: int|
                    0 <= j < s0.len() && s0[j].0 == sid && s0[j].1@.processing && spec_elapsed(
                        s0[j].1@.last_ping,
                        now,
                    ) >= self.spec_timeout();
                lemma_entries_map_index(s0, j);
            }
            assert forall|sid: u64| spec_timed_out(m0, self.spec_timeout(), sid, now) implies
                #[trigger] sessions@.contains(sid) by {
                lemma_entries_map_contains(s0, sid);
                let j = choose|j: int| 0 <= j < s0.len() && s0[j].0 == sid;
                lemma_entries_map_index(s0, j);
                let x = choose|x: int| 0 <= x < sessions@.len() && sessions@[x] == s0[j].0;
                assert(sessions@[x] == sid);
            }
            assert(sessions@.no_duplicates());
            assert forall|x: int| 0 <= x < sessions@.len() implies m0.contains_key(
                #[trigger] sessions@[x],
            ) && events@[x]@ == EventModel::Timeout(m0[sessions@[x]].peer) by {
                let j = choose|j: int|
                    0 <= j < s0.len() && s0[j].0 == sessions@[x] && events@[x]@
                        == EventModel::Timeout(s0[j].1@.peer);
                lemma_entries_map_index(s0, j);
            }
        }
        TimeoutReport { sessions, events }
    }

    /// Timer dispatch. Exactly two tokens are registered; a call under any
    /// other token is a construction-time mismatch between registration and
    /// handling, which the host must treat as fatal rather than hand here.
    pub fn notify(&mut self, token: u64, now: u64) -> (outcome: NotifyOutcome)
        requires
            old(self).wf(),
            token == SEND_PING_TOKEN || token == CHECK_TIMEOUT_TOKEN,
        ensures
            final(self).wf(),
            final(self).same_config(old(self)),
            token == SEND_PING_TOKEN ==> final(self)@ == spec_ping_tick(old(self)@, now) && (
            outcome matches NotifyOutcome::Probe(batch) && spec_probe_batch(
                old(self)@,
                now,
                batch,
            )),
            token == CHECK_TIMEOUT_TOKEN ==> final(self)@ == old(self)@ && (
            outcome matches NotifyOutcome::Timeouts(report) && spec_timeout_report(
                old(self)@,
                old(self).spec_timeout(),
                now,
                report,
            )),
    {
        if token == SEND_PING_TOKEN {
            NotifyOutcome::Probe(self.send_ping_tick(now))
        } else {
            NotifyOutcome::Timeouts(self.check_timeout_tick(now))
        }
    }

    /// Whether `session_id` is tracked, and if so whether a ping is in flight
    /// and when the latest ping was issued.
    pub fn status_of(&self, session_id: u64) -> (r: Option<(bool, u64)>)
        requires
            self.wf(),
        ensures
            match r {
                Some((processing, last_ping)) => self@.contains_key(session_id)
                    && self@[session_id].processing == processing
                    && self@[session_id].last_ping == last_ping,
                None => !self@.contains_key(session_id),
            },
    {
        let ghost s0 = self.connected_session_ids@;
        match self.find_index(session_id) {
            Some(i) => {
                proof {
                    lemma_entries_map_index(s0, i as int);
                }
                let status = &self.connected_session_ids[i].1;
                Some((status.processing, status.last_ping))
            },
            None => {
                proof {
                    lemma_entries_map_contains(s0, session_id);
                }
                None
            },
        }
    }
}

} // verus!

