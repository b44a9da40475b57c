//! The session coordinator: the single owner of the session and ban
//! tables, driven by connection events.
//!
//! Each event handler returns the outbound actions (notices to send,
//! sockets to shut down) that the caller performs; the handler itself only
//! mutates the tables.  The contracts state, per event, exactly how the
//! map views of the two tables change and exactly which actions come back.

use vstd::prelude::*;
use vstd::utf8::valid_utf8;
use crate::table::{
    Ban, Session, bmap, find_ban, find_session, has_addr, lemma_bmap_absent,
    lemma_bmap_index, lemma_bmap_push, lemma_bmap_remove, lemma_bmap_update, lemma_smap_absent,
    lemma_smap_index, lemma_smap_push, lemma_smap_remove, lemma_smap_update, set_ban, set_session,
    skey, smap, unique_addrs, unique_hosts,
};
use crate::text::{bytes_eq, is_text, trim, trim_spec};

verus! {

/// How long a ban blocks an origin, measured from the ban's start.
pub const BAN_WINDOW_MS: u64 = 600000;

/// Minimum spacing between accepted messages of one session.
pub const RATE_LIMIT_MS: u64 = 1000;

/// Strikes at which a session's origin is banned.
pub const STRIKE_LIMIT: u32 = 10;

/// A control message or chat line for one client.
#[derive(Debug, PartialEq, Eq)]
pub enum Notice {
    /// The origin is banned; how long the ban still has to run.
    BanNotice { remaining_ms: u64 },
    /// Ask the client for the shared token.
    AuthPrompt,
    /// Authentication succeeded.
    Welcome,
    /// The submitted token was wrong.
    Rejected,
    /// The origin has just been banned.
    Banned,
    /// A chat line from a peer, without its trailing newline.
    Chat { line: Vec<u8> },
}

/// Specification-level value of a `Notice`.
pub enum NoticeV {
    BanNotice { remaining_ms: u64 },
    AuthPrompt,
    Welcome,
    Rejected,
    Banned,
    Chat { line: Seq<u8> },
}

impl View for Notice {
    type V = NoticeV;

    open spec fn view(&self) -> NoticeV {
        match self {
            Notice::BanNotice { remaining_ms } => NoticeV::BanNotice {
                remaining_ms: *remaining_ms,
            },
            Notice::AuthPrompt => NoticeV::AuthPrompt,
            Notice::Welcome => NoticeV::Welcome,
            Notice::Rejected => NoticeV::Rejected,
            Notice::Banned => NoticeV::Banned,
            Notice::Chat { line } => NoticeV::Chat { line: line@ },
        }
    }
}

/// One outbound step the caller performs after an event is handled.
#[derive(Debug, PartialEq, Eq)]
pub enum Action {
    /// Write the notice to the connection of the given address.
    Send { host: u64, port: u16, notice: Notice },
    /// Force-close the connection of the given address.
    Shutdown { host: u64, port: u16 },
}

/// Specification-level value of an `Action`.
pub enum ActionV {
    Send { host: u64, port: u16, notice: NoticeV },
    Shutdown { host: u64, port: u16 },
}

impl View for Action {
    type V = ActionV;

    open spec fn view(&self) -> ActionV {
        match self {
            Action::Send { host, port, notice } => ActionV::Send {
                host: *host,
                port: *port,
                notice: notice@,
            },
            Action::Shutdown { host, port } => ActionV::Shutdown { host: *host, port: *port },
        }
    }
}

/// The views of a list of actions.
pub open spec fn action_views(acts: Seq<Action>) -> Seq<ActionV> {
    acts.map_values(|a: Action| a@)
}

/// An event a connection reader reports to the coordinator.
#[derive(Debug, PartialEq, Eq)]
pub enum Event {
    /// A new connection from the given address.
    Connected { host: u64, port: u16 },
    /// The connection of the given address ended.
    Disconnected { host: u64, port: u16 },
    /// One newline-delimited message arrived from the given address.
    Message { host: u64, port: u16, bytes: Vec<u8> },
}

/// Specification-level value of the coordinator: its two tables and its
/// fixed configuration.
pub struct CoordView {
    pub sessions: Seq<Session>,
    pub bans: Seq<Ban>,
    pub token: Seq<u8>,
    pub auth_required: bool,
}

/// Sole owner of the session and ban tables.
pub struct Coordinator {
    sessions: Vec<Session>,
    bans: Vec<Ban>,
    token: Vec<u8>,
    auth_required: bool,
}

impl View for Coordinator {
    type V = CoordView;

    closed spec fn view(&self) -> CoordView {
        CoordView {
            sessions: self.sessions@,
            bans: self.bans@,
            token: self.token@,
            auth_required: self.auth_required,
        }
    }
}

/// Elapsed time, with a clock that moved backward counted as no time.
pub open spec fn elapsed_since(now: u64, then: u64) -> u64 {
    if now >= then {
        (now - then) as u64
    } else {
        0
    }
}

/// The ban table still blocks `host` at time `now`.
pub open spec fn still_banned(bans: Map<u64, u64>, host: u64, now: u64) -> bool {
    bans.contains_key(host) && elapsed_since(now, bans[host]) < BAN_WINDOW_MS
}

/// How long a ban begun at `since` still has to run at time `now`.
pub open spec fn ban_remaining(since: u64, now: u64) -> u64
    recommends
        elapsed_since(now, since) < BAN_WINDOW_MS,
{
    (BAN_WINDOW_MS - elapsed_since(now, since)) as u64
}

/// The session may have a message accepted at time `now`: either nothing
/// was accepted yet, or at least the rate-limit interval has passed.
pub open spec fn on_time(s: Session, now: u64) -> bool {
    match s.last_accepted {
        None => true,
        Some(t) => elapsed_since(now, t) >= RATE_LIMIT_MS,
    }
}

/// The session a freshly admitted connection starts with.
pub open spec fn fresh_session(host: u64, port: u16, auth_required: bool) -> Session {
    Session { host, port, last_accepted: None, strikes: 0, authed: !auth_required }
}

/// The session after a message is accepted for broadcast.
pub open spec fn accepted_session(s: Session, now: u64) -> Session {
    Session { last_accepted: Some(now), strikes: 0, ..s }
}

/// The session after its token submission matched.
pub open spec fn authed_session(s: Session) -> Session {
    Session { authed: true, ..s }
}

/// The session after one strike.
pub open spec fn struck_session(s: Session) -> Session {
    Session { strikes: (s.strikes + 1) as u32, ..s }
}

/// A message's chat line: the bytes without their trailing newline.
pub open spec fn chat_line(bytes: Seq<u8>) -> Seq<u8> {
    if bytes.len() > 0 && bytes[bytes.len() - 1] == 10 {
        bytes.drop_last()
    } else {
        bytes
    }
}

/// The broadcast fan-out of `line` sent by the session at (`host`,
/// `port`): one chat send per authenticated session other than the
/// sender, in table order.
pub open spec fn broadcast_acts(ss: Seq<Session>, host: u64, port: u16, line: Seq<u8>) -> Seq<
    ActionV,
>
    decreases ss.len(),
{
    if ss.len() == 0 {
        Seq::empty()
    } else {
        let rest = broadcast_acts(ss.drop_last(), host, port, line);
        let s = ss.last();
        if s.authed && skey(s) != (host, port) {
            rest.push(ActionV::Send { host: s.host, port: s.port, notice: NoticeV::Chat { line } })
        } else {
            rest
        }
    }
}

/// Well-formedness of the coordinator's state: no duplicate session
/// addresses, no duplicate ban hosts, and every live session strictly
/// below the strike limit.
pub open spec fn view_wf(m: CoordView) -> bool {
    &&& unique_addrs(m.sessions)
    &&& unique_hosts(m.bans)
    &&& forall|i: int|
        0 <= i < m.sessions.len() ==> (#[trigger] m.sessions[i]).strikes < STRIKE_LIMIT
}

/// The configuration (token, authentication switch) never changes.
pub open spec fn same_config(pre: CoordView, post: CoordView) -> bool {
    post.token == pre.token && post.auth_required == pre.auth_required
}

/// What handling `Connected` does.  A still-banned origin gets the
/// remaining time and a shutdown, and nothing changes; otherwise any
/// expired ban is discarded and a fresh session is admitted, prompted for
/// the token exactly when authentication is required.
pub open spec fn connected_post(
    pre: CoordView,
    post: CoordView,
    acts: Seq<ActionV>,
    host: u64,
    port: u16,
    now: u64,
) -> bool {
    &&& same_config(pre, post)
    &&& if still_banned(bmap(pre.bans), host, now) {
        &&& post.sessions == pre.sessions
        &&& post.bans == pre.bans
        &&& acts == seq![
            ActionV::Send {
                host,
                port,
                notice: NoticeV::BanNotice {
                    remaining_ms: ban_remaining(bmap(pre.bans)[host], now),
                },
            },
            ActionV::Shutdown { host, port },
        ]
    } else {
        &&& bmap(post.bans) == bmap(pre.bans).remove(host)
        &&& smap(post.sessions) == smap(pre.sessions).insert(
            (host, port),
            fresh_session(host, port, pre.auth_required),
        )
        &&& acts == if pre.auth_required {
            seq![ActionV::Send { host, port, notice: NoticeV::AuthPrompt }]
        } else {
            Seq::<ActionV>::empty()
        }
    }
}

/// What handling `Disconnected` does: the session goes, nothing else
/// moves, nothing is sent.
pub open spec fn disconnected_post(
    pre: CoordView,
    post: CoordView,
    acts: Seq<ActionV>,
    host: u64,
    port: u16,
) -> bool {
    &&& same_config(pre, post)
    &&& post.bans == pre.bans
    &&& smap(post.sessions) == smap(pre.sessions).remove((host, port))
    &&& acts == Seq::<ActionV>::empty()
}

/// What one strike against session `s` does.  At the strike limit the
/// origin's ban begins now, the session goes, and the client is told and
/// cut off; below it only the session's strike count grows.
pub open spec fn strike_post(
    pre: CoordView,
    post: CoordView,
    acts: Seq<ActionV>,
    s: Session,
    now: u64,
) -> bool {
    &&& same_config(pre, post)
    &&& if s.strikes + 1 >= STRIKE_LIMIT {
        &&& bmap(post.bans) == bmap(pre.bans).insert(s.host, now)
        &&& smap(post.sessions) == smap(pre.sessions).remove(skey(s))
        &&& acts == seq![
            ActionV::Send { host: s.host, port: s.port, notice: NoticeV::Banned },
            ActionV::Shutdown { host: s.host, port: s.port },
        ]
    } else {
        &&& post.bans == pre.bans
        &&& smap(post.sessions) == smap(pre.sessions).insert(skey(s), struck_session(s))
        &&& acts == Seq::<ActionV>::empty()
    }
}

/// What handling `NewMessage` does.  An unknown address is ignored.  An
/// authenticated session's on-time, decodable message is broadcast to
/// every other authenticated session and resets the sender's strikes; an
/// early or undecodable one is a strike.  Before authentication a
/// decodable message is the token submission: a match authenticates, a
/// mismatch is rejected and disconnected without any strike; an
/// undecodable one is a strike.
pub open spec fn message_post(
    pre: CoordView,
    post: CoordView,
    acts: Seq<ActionV>,
    host: u64,
    port: u16,
    bytes: Seq<u8>,
    now: u64,
) -> bool {
    let k = (host, port);
    let sm = smap(pre.sessions);
    &&& same_config(pre, post)
    &&& if !sm.contains_key(k) {
        &&& post.sessions == pre.sessions
        &&& post.bans == pre.bans
        &&& acts == Seq::<ActionV>::empty()
    } else {
        let s = sm[k];
        if s.authed {
            if on_time(s, now) && valid_utf8(bytes) {
                &&& post.bans == pre.bans
                &&& smap(post.sessions) == sm.insert(k, accepted_session(s, now))
                &&& acts == broadcast_acts(pre.sessions, host, port, chat_line(bytes))
            } else {
                strike_post(pre, post, acts, s, now)
            }
        } else {
            if !valid_utf8(bytes) {
                strike_post(pre, post, acts, s, now)
            } else if trim_spec(bytes) == pre.token {
                &&& post.bans == pre.bans
                &&& smap(post.sessions) == sm.insert(k, authed_session(s))
                &&& acts == seq![ActionV::Send { host, port, notice: NoticeV::Welcome }]
            } else {
                &&& post.bans == pre.bans
                &&& smap(post.sessions) == sm.remove(k)
                &&& acts == seq![
                    ActionV::Send { host, port, notice: NoticeV::Rejected },
                    ActionV::Shutdown { host, port },
                ]
            }
        }
    }
}

/// Copy of the first `m` bytes.
fn prefix_vec(bytes: &[u8], m: usize) -> (r: Vec<u8>)
    requires
        m <= bytes@.len(),
    ensures
        r@ == bytes@.subrange(0, m as int),
{
    let mut r: Vec<u8> = Vec::new();
    let mut i: usize = 0;
    while i < m
        invariant
            0 <= i <= m <= bytes@.len(),
            r@ == bytes@.subrange(0, i as int),
        decreases m - i,
    {
        r.push(bytes[i]);
        proof {
            assert(bytes@.subrange(0, i as int).push(bytes@[i as int]) =~= bytes@.subrange(
                0,
                i as int + 1,
            ));
        }
        i = i + 1;
    }
    r
}

/// The message's chat line: the bytes without their trailing newline.
fn chat_line_bytes(bytes: &[u8]) -> (r: Vec<u8>)
    ensures
        r@ == chat_line(bytes@),
{
    let n = bytes.len();
    if n > 0 && bytes[n - 1] == 10 {
        let r = prefix_vec(bytes, n - 1);
        proof {
            assert(bytes@.subrange(0, n as int - 1) =~= bytes@.drop_last());
        }
        r
    } else {
        proof {
            assert(bytes@.subrange(0, n as int) =~= bytes@);
        }
        prefix_vec(bytes, n)
    }
}

/// One chat send per authenticated session other than the sender, in
/// table order.
fn broadcast_from(sessions: &Vec<Session>, host: u64, port: u16, line: &[u8]) -> (acts: Vec<
    Action,
>)
    ensures
        action_views(acts@) == broadcast_acts(sessions@, host, port, line@),
{
    let mut acts: Vec<Action> = Vec::new();
    let n = sessions.len();
    let mut j: usize = 0;
    while j < n
        invariant
            0 <= j <= n,
            n == sessions@.len(),
            action_views(acts@) == broadcast_acts(sessions@.take(j as int), host, port, line@),
        decreases n - j,
    {
        let ghost pre_views = action_views(acts@);
        let s = sessions[j];
        if s.authed && !(s.host == host && s.port == port) {
            let copy = prefix_vec(line, line.len());
            proof {
                assert(line@.subrange(0, line@.len() as int) =~= line@);
            }
            acts.push(Action::Send { host: s.host, port: s.port, notice: Notice::Chat {
                line: copy,
            } });
            proof {
                assert(action_views(acts@) =~= pre_views.push(ActionV::Send {
                    host: s.host,
                    port: s.port,
                    notice: NoticeV::Chat { line: line@ },
                }));
            }
        }
        proof {
            let t = sessions@.take(j as int + 1);
            assert(t.drop_last() =~= sessions@.take(j as int));
            assert(t.last() == sessions@[j as int]);
        }
        j = j + 1;
    }
    proof {
        assert(sessions@.take(n as int) =~= sessions@);
    }
    acts
}

impl Coordinator {
    /// A coordinator with empty tables, the given shared token, and the
    /// given authentication switch.
    pub fn new(token: Vec<u8>, auth_required: bool) -> (c: Coordinator)
        ensures
            c.wf(),
            c@.sessions == Seq::<Session>::empty(),
            c@.bans == Seq::<Ban>::empty(),
            c@.token == token@,
            c@.auth_required == auth_required,
    {
        Coordinator { sessions: Vec::new(), bans: Vec::new(), token, auth_required }
    }

    /// The coordinator's state is well formed.
    pub open spec fn wf(self) -> bool {
        view_wf(self@)
    }

    /// Admits a fresh session for the address, prompting for the token
    /// exactly when authentication is required.
    fn create_session(&mut self, host: u64, port: u16) -> (acts: Vec<Action>)
        requires
            old(self).wf(),
        ensures
            final(self).wf(),
            same_config(old(self)@, final(self)@),
            final(self)@.bans == old(self)@.bans,
            smap(final(self)@.sessions) == smap(old(self)@.sessions).insert(
                (host, port),
                fresh_session(host, port, old(self)@.auth_required),
            ),
            action_views(acts@) == if old(self)@.auth_required {
                seq![ActionV::Send { host, port, notice: NoticeV::AuthPrompt }]
            } else {
                Seq::<ActionV>::empty()
            },
    {
        let ghost pre = self.sessions@;
        let fresh = Session {
            host,
            port,
            last_accepted: None,
            strikes: 0,
            authed: !self.auth_required,
        };
        match find_session(&self.sessions, host, port) {
            Some(i) => {
                proof {
                    lemma_smap_update(pre, i as int, fresh);
                }
                set_session(&mut self.sessions, i, fresh);
                proof {
                    assert forall|j: int| 0 <= j < self.sessions@.len() implies (
                    #[trigger] self.sessions@[j]).strikes < STRIKE_LIMIT by {
                        if j != i {
                            assert(self.sessions@[j] == pre[j]);
                        }
                    }
                }
            },
            None => {
                proof {
                    lemma_smap_push(pre, fresh);
                }
                self.sessions.push(fresh);
            },
        }
        let mut acts: Vec<Action> = Vec::new();
        if self.auth_required {
            acts.push(Action::Send { host, port, notice: Notice::AuthPrompt });
            proof {
                assert(action_views(acts@) =~= seq![
                    ActionV::Send { host, port, notice: NoticeV::AuthPrompt },
                ]);
            }
        } else {
            proof {
                assert(action_views(acts@) =~= Seq::<ActionV>::empty());
            }
        }
        acts
    }

    /// Handles a `Connected` event at time `now`.
    pub fn on_connected(&mut self, host: u64, port: u16, now: u64) -> (acts: Vec<Action>)
        requires
            old(self).wf(),
        ensures
            final(self).wf(),
            connected_post(old(self)@, final(self)@, action_views(acts@), host, port, now),
    {
        let ghost pre = self@;
        match find_ban(&self.bans, host) {
            Some(i) => {
                let since = self.bans[i].since_ms;
                proof {
                    lemma_bmap_index(pre.bans, i as int);
                }
                let elapsed = if now >= since {
                    now - since
                } else {
                    0
                };
                if elapsed < BAN_WINDOW_MS {
                    let mut acts: Vec<Action> = Vec::new();
                    acts.push(Action::Send { host, port, notice: Notice::BanNotice {
                        remaining_ms: BAN_WINDOW_MS - elapsed,
                    } });
                    acts.push(Action::Shutdown { host, port });
                    proof {
                        assert(action_views(acts@) =~= seq![
                            ActionV::Send {
                                host,
                                port,
                                notice: NoticeV::BanNotice {
                                    remaining_ms: ban_remaining(bmap(pre.bans)[host], now),
                                },
                            },
                            ActionV::Shutdown { host, port },
                        ]);
                    }
                    acts
                } else {
                    proof {
                        lemma_bmap_remove(pre.bans, i as int);
                    }
                    self.bans.remove(i);
                    self.create_session(host, port)
                }
            },
            None => {
                proof {
                    lemma_bmap_absent(pre.bans, host);
                    assert(bmap(pre.bans).remove(host) =~= bmap(pre.bans));
                }
                self.create_session(host, port)
            },
        }
    }

    /// Handles a `Disconnected` event.
    pub fn on_disconnected(&mut self, host: u64, port: u16) -> (acts: Vec<Action>)
        requires
            old(self).wf(),
        ensures
            final(self).wf(),
            disconnected_post(old(self)@, final(self)@, action_views(acts@), host, port),
    {
        let ghost pre = self.sessions@;
        match find_session(&self.sessions, host, port) {
            Some(i) => {
                proof {
                    lemma_smap_remove(pre, i as int);
                }
                self.sessions.remove(i);
                proof {
                    assert forall|j: int| 0 <= j < self.sessions@.len() implies (
                    #[trigger] self.sessions@[j]).strikes < STRIKE_LIMIT by {
                        if j < i {
                            assert(self.sessions@[j] == pre[j]);
                        } else {
                            assert(self.sessions@[j] == pre[j + 1]);
                        }
                    }
                }
            },
            None => {
                proof {
                    lemma_smap_absent(pre, (host, port));
                    assert(smap(pre).remove((host, port)) =~= smap(pre));
                }
            },
        }
        let acts: Vec<Action> = Vec::new();
        proof {
            assert(action_views(acts@) =~= Seq::<ActionV>::empty());
        }
        acts
    }

    /// Applies one strike to the session at index `i`.
    fn strike(&mut self, i: usize, now: u64) -> (acts: Vec<Action>)
        requires
            old(self).wf(),
            i < old(self)@.sessions.len(),
        ensures
            final(self).wf(),
            strike_post(
                old(self)@,
                final(self)@,
                action_views(acts@),
                old(self)@.sessions[i as int],
                now,
            ),
    {
        let ghost pre = self@;
        let s = self.sessions[i];
        let ns = s.strikes + 1;
        if ns >= STRIKE_LIMIT {
            let new_ban = Ban { host: s.host, since_ms: now };
            match find_ban(&self.bans, s.host) {
                Some(b) => {
                    proof {
                        lemma_bmap_update(pre.bans, b as int, new_ban);
                    }
                    set_ban(&mut self.bans, b, new_ban);
                },
                None => {
                    proof {
                        lemma_bmap_push(pre.bans, new_ban);
                    }
                    self.bans.push(new_ban);
                },
            }
            proof {
                lemma_smap_remove(pre.sessions, i as int);
            }
            self.sessions.remove(i);
            proof {
                assert forall|j: int| 0 <= j < self.sessions@.len() implies (
                #[trigger] self.sessions@[j]).strikes < STRIKE_LIMIT by {
                    if j < i {
                        assert(self.sessions@[j] == pre.sessions[j]);
                    } else {
                        assert(self.sessions@[j] == pre.sessions[j + 1]);
                    }
                }
            }
            let mut acts: Vec<Action> = Vec::new();
            acts.push(Action::Send { host: s.host, port: s.port, notice: Notice::Banned });
            acts.push(Action::Shutdown { host: s.host, port: s.port });
            proof {
                assert(action_views(acts@) =~= seq![
                    ActionV::Send { host: s.host, port: s.port, notice: NoticeV::Banned },
                    ActionV::Shutdown { host: s.host, port: s.port },
                ]);
            }
            acts
        } else {
            let upd = Session { strikes: ns, ..s };
            proof {
                lemma_smap_update(pre.sessions, i as int, upd);
            }
            set_session(&mut self.sessions, i, upd);
            proof {
                assert forall|j: int| 0 <= j < self.sessions@.len() implies (
                #[trigger] self.sessions@[j]).strikes < STRIKE_LIMIT by {
                    if j != i {
                        assert(self.sessions@[j] == pre.sessions[j]);
                    }
                }
            }
            let acts: Vec<Action> = Vec::new();
            proof {
                assert(action_views(acts@) =~= Seq::<ActionV>::empty());
            }
            acts
        }
    }

    /// Handles a `NewMessage` event at time `now`.
    pub fn on_message(&mut self, host: u64, port: u16, bytes: &[u8], now: u64) -> (acts: Vec<
        Action,
    >)
        requires
            old(self).wf(),
        ensures
            final(self).wf(),
            message_post(old(self)@, final(self)@, action_views(acts@), host, port, bytes@, now),
    {
        let ghost pre = self@;
        let i = match find_session(&self.sessions, host, port) {
            Some(i) => i,
            None => {
                proof {
                    lemma_smap_absent(pre.sessions, (host, port));
                }
                let acts: Vec<Action> = Vec::new();
                proof {
                    assert(action_views(acts@) =~= Seq::<ActionV>::empty());
                }
                return acts;
            },
        };
        let s = self.sessions[i];
        proof {
            lemma_smap_index(pre.sessions, i as int);
        }
        if s.authed {
            let timely = match s.last_accepted {
                None => true,
                Some(t) => (if now >= t {
                    now - t
                } else {
                    0
                }) >= RATE_LIMIT_MS,
            };
            if timely && is_text(bytes) {
                let line = chat_line_bytes(bytes);
                let acts = broadcast_from(&self.sessions, host, port, line.as_slice());
                let upd = Session { last_accepted: Some(now), strikes: 0, ..s };
                proof {
                    lemma_smap_update(pre.sessions, i as int, upd);
                }
                set_session(&mut self.sessions, i, upd);
                proof {
                    assert forall|j: int| 0 <= j < self.sessions@.len() implies (
                    #[trigger] self.sessions@[j]).strikes < STRIKE_LIMIT by {
                        if j != i {
                            assert(self.sessions@[j] == pre.sessions[j]);
                        }
                    }
                }
                acts
            } else {
                self.strike(i, now)
            }
        } else {
            if is_text(bytes) {
                let trimmed = trim(bytes);
                if bytes_eq(trimmed.as_slice(), self.token.as_slice()) {
                    let upd = Session { authed: true, ..s };
                    proof {
                        lemma_smap_update(pre.sessions, i as int, upd);
                    }
                    set_session(&mut self.sessions, i, upd);
                    proof {
                        assert forall|j: int| 0 <= j < self.sessions@.len() implies (
                        #[trigger] self.sessions@[j]).strikes < STRIKE_LIMIT by {
                            if j != i {
                                assert(self.sessions@[j] == pre.sessions[j]);
                            }
                        }
                    }
                    let mut acts: Vec<Action> = Vec::new();
                    acts.push(Action::Send { host, port, notice: Notice::Welcome });
                    proof {
                        assert(action_views(acts@) =~= seq![
                            ActionV::Send { host, port, notice: NoticeV::Welcome },
                        ]);
                    }
                    acts
                } else {
                    proof {
                        lemma_smap_remove(pre.sessions, i as int);
                    }
                    self.sessions.remove(i);
                    proof {
                        assert forall|j: int| 0 <= j < self.sessions@.len() implies (
                        #[trigger] self.sessions@[j]).strikes < STRIKE_LIMIT by {
                            if j < i {
                                assert(self.sessions@[j] == pre.sessions[j]);
                            } else {
                                assert(self.sessions@[j] == pre.sessions[j + 1]);
                            }
                        }
                    }
                    let mut acts: Vec<Action> = Vec::new();
                    acts.push(Action::Send { host, port, notice: Notice::Rejected });
                    acts.push(Action::Shutdown { host, port });
                    proof {
                        assert(action_views(acts@) =~= seq![
                            ActionV::Send { host, port, notice: NoticeV::Rejected },
                            ActionV::Shutdown { host, port },
                        ]);
                    }
                    acts
                }
            } else {
                self.strike(i, now)
            }
        }
    }

    /// Handles one event at time `now` and returns the outbound actions
    /// to perform, in order.
    pub fn handle_event(&mut self, ev: Event, now: u64) -> (acts: Vec<Action>)
        requires
            old(self).wf(),
        ensures
            final(self).wf(),
            ev matches Event::Connected { host, port } ==> connected_post(
                old(self)@,
                final(self)@,
                action_views(acts@),
                host,
                port,
                now,
            ),
            ev matches Event::Disconnected { host, port } ==> disconnected_post(
                old(self)@,
                final(self)@,
                action_views(acts@),
                host,
                port,
            ),
            ev matches Event::Message { host, port, bytes } ==> message_post(
                old(self)@,
                final(self)@,
                action_views(acts@),
                host,
                port,
                bytes@,
                now,
            ),
    {
        match ev {
            Event::Connected { host, port } => self.on_connected(host, port, now),
            Event::Disconnected { host, port } => self.on_disconnected(host, port),
            Event::Message { host, port, bytes } => self.on_message(
                host,
                port,
                bytes.as_slice(),
                now,
            ),
        }
    }

    /// How many sessions are live.
    pub fn session_count(&self) -> (n: usize)
        ensures
            n == self@.sessions.len(),
    {
        self.sessions.len()
    }

    /// Whether a session for the address is live.
    pub fn has_session(&self, host: u64, port: u16) -> (r: bool)
        ensures
            r == smap(self@.sessions).contains_key((host, port)),
    {
        match find_session(&self.sessions, host, port) {
            Some(i) => {
                proof {
                    assert(skey(self@.sessions[i as int]) == (host, port));
                    assert(has_addr(self@.sessions, (host, port)));
                }
                true
            },
            None => false,
        }
    }

    /// The strike count of the session for the address, if one is live.
    pub fn session_strikes(&self, host: u64, port: u16) -> (r: Option<u32>)
        requires
            self.wf(),
        ensures
            match r {
                Some(c) => smap(self@.sessions).contains_key((host, port)) && c == smap(
                    self@.sessions,
                )[(host, port)].strikes,
                None => !smap(self@.sessions).contains_key((host, port)),
            },
    {
        match find_session(&self.sessions, host, port) {
            Some(i) => {
                proof {
                    lemma_smap_index(self@.sessions, i as int);
                }
                Some(self.sessions[i].strikes)
            },
            None => None,
        }
    }

    /// Whether the session for the address has authenticated, if one is
    /// live.
    pub fn session_authed(&self, host: u64, port: u16) -> (r: Option<bool>)
        requires
            self.wf(),
        ensures
            match r {
                Some(a) => smap(self@.sessions).contains_key((host, port)) && a == smap(
                    self@.sessions,
                )[(host, port)].authed,
                None => !smap(self@.sessions).contains_key((host, port)),
            },
    {
        match find_session(&self.sessions, host, port) {
            Some(i) => {
                proof {
                    lemma_smap_index(self@.sessions, i as int);
                }
                Some(self.sessions[i].authed)
            },
            None => None,
        }
    }

    /// When the origin's ban began, if a ban record is held.
    pub fn ban_started(&self, host: u64) -> (r: Option<u64>)
        requires
            self.wf(),
        ensures
            match r {
                Some(t) => bmap(self@.bans).contains_key(host) && t == bmap(self@.bans)[host],
                None => !bmap(self@.bans).contains_key(host),
            },
    {
        match find_ban(&self.bans, host) {
            Some(i) => {
                proof {
                    lemma_bmap_index(self@.bans, i as int);
                }
                Some(self.bans[i].since_ms)
            },
            None => None,
        }
    }

    /// Whether authentication is required.
    pub fn auth_required(&self) -> (r: bool)
        ensures
            r == self@.auth_required,
    {
        self.auth_required
    }
}

} // verus!
