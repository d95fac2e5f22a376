//! The multiplexing engine: fan-in of client lines to the single serial
//! write path, fan-out of serial lines to every live client session.
//!
//! A [`Hub`] holds the inbound queue (all sessions produce, the serial
//! inbound loop is the sole consumer) and one record per client session,
//! each with its private broadcast buffer.  Ghost histories record every
//! line a client sent, every line handed to the serial write path, and
//! every line broadcast from the device; the well-formedness invariant
//! [`Hub::wf`] ties them together:
//!
//! - fan-in order: for each session, the lines written to the device on its
//!   behalf followed by the lines still queued for it are exactly the lines
//!   it sent, in order;
//! - fan-out delivery: for each `Active` session, the lines already taken
//!   for it plus the lines still buffered for it are exactly the broadcasts
//!   made since it subscribed — each one once, in order, and none from
//!   before it subscribed.
//!
//! The hub is a passive state machine: the caller owns the actual sockets
//! and the device, feeds events in (`client_line`, `serial_line`,
//! `begin_close`, ...) and carries the returned lines out.
//!
//! Chosen policies, where the design leaves a choice open: the inbound
//! queue is unbounded, so under sustained overload it grows (the device's
//! throughput is fixed by its baud rate; a caller that wants backpressure
//! can watch [`Hub::queue_len`]); a slow client's pending buffer likewise
//! grows until it drains or the caller closes that session; and after a
//! serial failure no further line is accepted into the queue, and the lines
//! already queued are never drained.

use vstd::prelude::*;

use crate::line::Line;

verus! {

/// Lifecycle of one client session: both directions run while `Active`;
/// either direction failing moves it to `Closing`, which demands the other
/// direction be cancelled; `Terminated` has released its broadcast buffer.
#[derive(Clone, Copy, PartialEq, Eq, Structural, Debug)]
pub enum SessionState {
    Active,
    Closing,
    Terminated,
}

/// One client session: its lifecycle state, the broadcast lines buffered
/// for it, and ghost histories of what it sent and what it was handed.
pub struct Session {
    /// Lifecycle state.
    pub state: SessionState,
    /// Broadcast lines not yet taken for writing to this client.
    pub pending: Vec<Line>,
    /// Every line this session pushed into the inbound queue, oldest first.
    pub sent: Ghost<Seq<Seq<u8>>>,
    /// Every line already taken for writing to this client, oldest first.
    pub delivered: Ghost<Seq<Seq<u8>>>,
    /// How many broadcasts predate this session's subscription.
    pub sub_start: Ghost<int>,
}

/// The views of a sequence of lines.
pub open spec fn views_of(ls: Seq<Line>) -> Seq<Seq<u8>> {
    ls.map_values(|l: Line| l@)
}

/// The lines that producer `id` contributed to `s`, in order.
pub open spec fn lines_from(s: Seq<(int, Seq<u8>)>, id: int) -> Seq<Seq<u8>>
    decreases s.len(),
{
    if s.len() == 0 {
        Seq::empty()
    } else {
        let rest = lines_from(s.drop_last(), id);
        if s.last().0 == id {
            rest.push(s.last().1)
        } else {
            rest
        }
    }
}

/// The shared engine state.
pub struct Hub {
    /// Inbound queue: lines awaiting the serial write path, oldest first.
    pub queue: Vec<Line>,
    /// Which session produced each queued line (ghost, parallel to `queue`).
    pub qids: Ghost<Seq<int>>,
    /// One record per session ever accepted; a session's id is its index.
    pub sessions: Vec<Session>,
    /// Whether the serial forwarder is still running; a device failure
    /// clears it, and nothing is accepted or drained afterwards.
    pub up: bool,
    /// History of lines handed to the serial write path, with their
    /// producers, oldest first.
    pub written: Ghost<Seq<(int, Seq<u8>)>>,
    /// History of lines read from the device and broadcast, oldest first.
    pub broadcasts: Ghost<Seq<Seq<u8>>>,
}

impl Hub {
    /// The inbound queue together with the producer of each queued line.
    pub open spec fn queued(self) -> Seq<(int, Seq<u8>)> {
        Seq::new(self.queue@.len(), |i: int| (self.qids@[i], self.queue@[i]@))
    }

    /// An id names a session record.
    pub open spec fn valid_id(self, id: u64) -> bool {
        id < self.sessions@.len()
    }

    /// The session record behind an id.
    pub open spec fn session(self, id: u64) -> Session {
        self.sessions@[id as int]
    }

    /// The accounting that holds of session `i`.
    pub open spec fn session_inv(self, i: int) -> bool {
        &&& lines_from(self.written@ + self.queued(), i) == self.sessions@[i].sent@
        &&& (self.sessions@[i].state == SessionState::Active ==> {
            &&& 0 <= self.sessions@[i].sub_start@ <= self.broadcasts@.len()
            &&& self.sessions@[i].delivered@ + views_of(self.sessions@[i].pending@)
                == self.broadcasts@.subrange(
                self.sessions@[i].sub_start@,
                self.broadcasts@.len() as int,
            )
        })
        &&& (self.sessions@[i].state == SessionState::Terminated ==> self.sessions@[i].pending@.len()
            == 0)
    }

    /// Well-formedness: producer tags are in range and every session's
    /// fan-in and fan-out accounting holds.
    pub open spec fn wf(self) -> bool {
        &&& self.qids@.len() == self.queue@.len()
        &&& forall|j: int|
            0 <= j < self.qids@.len() ==> 0 <= #[trigger] self.qids@[j] < self.sessions@.len()
        &&& forall|k: int|
            0 <= k < self.written@.len() ==> 0 <= (#[trigger] self.written@[k]).0
                < self.sessions@.len()
        &&& forall|i: int| 0 <= i < self.sessions@.len() ==> #[trigger] self.session_inv(i)
    }

    /// A fresh hub: no sessions, nothing queued, the forwarder running.
    pub fn new() -> (h: Hub)
        ensures
            h.wf(),
            h.queue@ == Seq::<Line>::empty(),
            h.sessions@ == Seq::<Session>::empty(),
            h.written@ == Seq::<(int, Seq<u8>)>::empty(),
            h.broadcasts@ == Seq::<Seq<u8>>::empty(),
            h.up,
    {
        Hub {
            queue: Vec::new(),
            qids: Ghost(Seq::empty()),
            sessions: Vec::new(),
            up: true,
            written: Ghost(Seq::empty()),
            broadcasts: Ghost(Seq::empty()),
        }
    }

    /// Accepts a connection: a new `Active` session with a fresh broadcast
    /// subscription.  It receives only broadcasts made from now on, and has
    /// sent nothing yet.  No other state moves.
    pub fn connect(&mut self) -> (id: u64)
        requires
            old(self).wf(),
        ensures
            final(self).wf(),
            final(self).valid_id(id),
            id as int == old(self).sessions@.len(),
            final(self).sessions@.len() == old(self).sessions@.len() + 1,
            forall|i: int|
                0 <= i < old(self).sessions@.len() ==> final(self).sessions@[i] == old(self).sessions@[i],
            final(self).session(id).state == SessionState::Active,
            final(self).session(id).pending@ == Seq::<Line>::empty(),
            final(self).session(id).sent@ == Seq::<Seq<u8>>::empty(),
            final(self).session(id).delivered@ == Seq::<Seq<u8>>::empty(),
            final(self).session(id).sub_start@ == old(self).broadcasts@.len(),
            final(self).queue@ == old(self).queue@,
            final(self).qids@ == old(self).qids@,
            final(self).written@ == old(self).written@,
            final(self).broadcasts@ == old(self).broadcasts@,
            final(self).up == old(self).up,
    {
        let id = self.sessions.len() as u64;
        let s = Session {
            state: SessionState::Active,
            pending: Vec::new(),
            sent: Ghost(Seq::empty()),
            delivered: Ghost(Seq::empty()),
            sub_start: Ghost(self.broadcasts@.len() as int),
        };
        self.sessions.push(s);
        proof {
            assert(self.queued() =~= old(self).queued());
            let all = self.written@ + self.queued();
            assert forall|k: int| 0 <= k < all.len() implies (#[trigger] all[k]).0 != id as int by {
                assert(all[k].0 < old(self).sessions@.len());
            }
            lemma_lines_from_absent(all, id as int);
            assert(self.session(id).delivered@ + views_of(self.session(id).pending@)
                =~= self.broadcasts@.subrange(
                self.session(id).sub_start@,
                self.broadcasts@.len() as int,
            ));
            assert forall|i: int| 0 <= i < self.sessions@.len() implies #[trigger] self.session_inv(
                i,
            ) by {
                if i < old(self).sessions@.len() {
                    assert(old(self).session_inv(i));
                }
            }
        }
        id
    }

    /// A session pushed one line upstream.  The line is accepted exactly
    /// when the forwarder is up and the session `Active`; then it goes to
    /// the back of the inbound queue and onto the session's sent history,
    /// and nothing else moves.  Otherwise the hub is left exactly as it
    /// was: after a serial failure no line is accepted.
    pub fn client_line(&mut self, id: u64, line: Line) -> (accepted: bool)
        requires
            old(self).wf(),
            old(self).valid_id(id),
        ensures
            final(self).wf(),
            accepted == (old(self).up && old(self).session(id).state == SessionState::Active),
            accepted ==> {
                &&& final(self).queue@ == old(self).queue@.push(line)
                &&& final(self).qids@ == old(self).qids@.push(id as int)
                &&& final(self).sessions@.len() == old(self).sessions@.len()
                &&& forall|i: int|
                    0 <= i < old(self).sessions@.len() && i != id as int ==> final(self).sessions@[i] == old(self).sessions@[i]
                &&& final(self).session(id).sent@ == old(self).session(id).sent@.push(line@)
                &&& final(self).session(id).state == old(self).session(id).state
                &&& final(self).session(id).pending@ == old(self).session(id).pending@
                &&& final(self).session(id).delivered@ == old(self).session(id).delivered@
                &&& final(self).session(id).sub_start@ == old(self).session(id).sub_start@
                &&& final(self).written@ == old(self).written@
                &&& final(self).broadcasts@ == old(self).broadcasts@
                &&& final(self).up == old(self).up
            },
            !accepted ==> *final(self) == *old(self),
    {
        if !self.up {
            return false;
        }
        // materialize the length so the id-to-index cast below is known exact
        let n = self.sessions.len();
        let i = id as usize;
        assert(i as int == id as int && i < n);
        if !(self.sessions[i].state == SessionState::Active) {
            return false;
        }
        let ghost old_sent = self.sessions@[id as int].sent@;
        self.sessions[i].sent = Ghost(old_sent.push(line@));
        self.qids = Ghost(self.qids@.push(id as int));
        self.queue.push(line);
        proof {
            assert(self.queued() =~= old(self).queued().push((id as int, line@)));
            assert(self.written@ + self.queued() =~= (old(self).written@ + old(self).queued()).push((id as int, line@)));
            assert forall|k: int| 0 <= k < self.sessions@.len() implies #[trigger] self.session_inv(
                k,
            ) by {
                assert(old(self).session_inv(k));
                lemma_lines_from_push(old(self).written@ + old(self).queued(), (id as int, line@), k);
            }
        }
        true
    }

    /// The serial inbound loop takes the oldest queued line for writing to
    /// the device.  Returns a line exactly when the forwarder is up and the
    /// queue is not empty; the line moves from the queue to the written
    /// history under the same producer, and nothing else moves — in
    /// particular a session's already-queued lines survive its closing.
    pub fn pop_serial(&mut self) -> (r: Option<Line>)
        requires
            old(self).wf(),
        ensures
            final(self).wf(),
            old(self).up && old(self).queue@.len() > 0 ==> {
                &&& r == Some(old(self).queue@[0])
                &&& final(self).queue@ == old(self).queue@.drop_first()
                &&& final(self).qids@ == old(self).qids@.drop_first()
                &&& final(self).written@ == old(self).written@.push(
                    (old(self).qids@[0], old(self).queue@[0]@),
                )
                &&& final(self).sessions@ == old(self).sessions@
                &&& final(self).broadcasts@ == old(self).broadcasts@
                &&& final(self).up
            },
            !(old(self).up && old(self).queue@.len() > 0) ==> r == None::<Line> && *final(self)
                == *old(self),
    {
        if !self.up || self.queue.len() == 0 {
            return None;
        }
        let ghost front = (self.qids@[0], self.queue@[0]@);
        let line = self.queue.remove(0);
        self.qids = Ghost(self.qids@.drop_first());
        self.written = Ghost(self.written@.push(front));
        proof {
            assert(self.queue@ =~= old(self).queue@.drop_first());
            assert(self.written@ + self.queued() =~= old(self).written@ + old(self).queued());
            assert forall|k: int| 0 <= k < self.sessions@.len() implies #[trigger] self.session_inv(
                k,
            ) by {
                assert(old(self).session_inv(k));
            }
        }
        Some(line)
    }

    /// The serial outbound loop read one line from the device: it is
    /// recorded as broadcast and buffered for every `Active` session — each
    /// of them, exactly once, including the empty line.  Sessions not
    /// `Active` are left untouched, as is everything else.
    pub fn serial_line(&mut self, line: Line)
        requires
            old(self).wf(),
            old(self).up,
        ensures
            final(self).wf(),
            final(self).broadcasts@ == old(self).broadcasts@.push(line@),
            final(self).queue@ == old(self).queue@,
            final(self).qids@ == old(self).qids@,
            final(self).written@ == old(self).written@,
            final(self).up == old(self).up,
            final(self).sessions@.len() == old(self).sessions@.len(),
            forall|i: int|
                0 <= i < old(self).sessions@.len() ==> {
                    &&& (#[trigger] final(self).sessions@[i]).state == old(self).sessions@[i].state
                    &&& final(self).sessions@[i].sent@ == old(self).sessions@[i].sent@
                    &&& final(self).sessions@[i].delivered@ == old(self).sessions@[i].delivered@
                    &&& final(self).sessions@[i].sub_start@ == old(self).sessions@[i].sub_start@
                    &&& (old(self).sessions@[i].state == SessionState::Active ==> final(self).sessions@[i].pending@ == old(self).sessions@[i].pending@.push(
                        final(self).sessions@[i].pending@.last(),
                    ) && final(self).sessions@[i].pending@.last()@ == line@)
                    &&& (old(self).sessions@[i].state != SessionState::Active ==> final(self).sessions@[i].pending@ == old(self).sessions@[i].pending@)
                },
    {
        let n = self.sessions.len();
        let mut i: usize = 0;
        while i < n
            invariant
                i <= n,
                n == self.sessions@.len(),
                n == old(self).sessions@.len(),
                self.queue@ == old(self).queue@,
                self.qids@ == old(self).qids@,
                self.written@ == old(self).written@,
                self.broadcasts@ == old(self).broadcasts@,
                self.up == old(self).up,
                forall|k: int| i <= k < n ==> self.sessions@[k] == old(self).sessions@[k],
                forall|k: int|
                    0 <= k < i ==> {
                        &&& (#[trigger] self.sessions@[k]).state == old(self).sessions@[k].state
                        &&& self.sessions@[k].sent@ == old(self).sessions@[k].sent@
                        &&& self.sessions@[k].delivered@ == old(self).sessions@[k].delivered@
                        &&& self.sessions@[k].sub_start@ == old(self).sessions@[k].sub_start@
                        &&& (old(self).sessions@[k].state == SessionState::Active ==>
                            self.sessions@[k].pending@ == old(self).sessions@[k].pending@.push(
                            self.sessions@[k].pending@.last(),
                        ) && self.sessions@[k].pending@.last()@ == line@)
                        &&& (old(self).sessions@[k].state != SessionState::Active ==>
                            self.sessions@[k].pending@ == old(self).sessions@[k].pending@)
                    },
            decreases n - i,
        {
            if self.sessions[i].state == SessionState::Active {
                let copy = line.clone_line();
                self.sessions[i].pending.push(copy);
            }
            i += 1;
        }
        self.broadcasts = Ghost(self.broadcasts@.push(line@));
        proof {
            assert forall|k: int| 0 <= k < self.sessions@.len() implies #[trigger] self.session_inv(
                k,
            ) by {
                assert(old(self).session_inv(k));
                assert(self.queued() =~= old(self).queued());
                if old(self).sessions@[k].state == SessionState::Active {
                    assert(views_of(self.sessions@[k].pending@) =~= views_of(
                        old(self).sessions@[k].pending@,
                    ).push(line@));
                    assert(self.broadcasts@.subrange(
                        self.sessions@[k].sub_start@,
                        self.broadcasts@.len() as int,
                    ) =~= old(self).broadcasts@.subrange(
                        old(self).sessions@[k].sub_start@,
                        old(self).broadcasts@.len() as int,
                    ).push(line@));
                }
            }
        }
    }

    /// One direction of a session failed or its stream ended: an `Active`
    /// session moves to `Closing`, which obliges the caller to cancel the
    /// session's other direction.  Every other session, the queue and the
    /// histories are untouched — a failure is local to its session.
    pub fn begin_close(&mut self, id: u64)
        requires
            old(self).wf(),
            old(self).valid_id(id),
        ensures
            final(self).wf(),
            old(self).session(id).state == SessionState::Active ==> {
                &&& final(self).session(id).state == SessionState::Closing
                &&& final(self).session(id).pending@ == old(self).session(id).pending@
                &&& final(self).session(id).sent@ == old(self).session(id).sent@
                &&& final(self).session(id).delivered@ == old(self).session(id).delivered@
                &&& final(self).session(id).sub_start@ == old(self).session(id).sub_start@
                &&& final(self).sessions@.len() == old(self).sessions@.len()
                &&& forall|i: int|
                    0 <= i < old(self).sessions@.len() && i != id as int ==> final(self).sessions@[i] == old(self).sessions@[i]
                &&& final(self).queue@ == old(self).queue@
                &&& final(self).qids@ == old(self).qids@
                &&& final(self).written@ == old(self).written@
                &&& final(self).broadcasts@ == old(self).broadcasts@
                &&& final(self).up == old(self).up
            },
            old(self).session(id).state != SessionState::Active ==> *final(self) == *old(self),
    {
        // materialize the length so the id-to-index cast below is known exact
        let n = self.sessions.len();
        let i = id as usize;
        assert(i as int == id as int && i < n);
        if self.sessions[i].state == SessionState::Active {
            self.sessions[i].state = SessionState::Closing;
            proof {
                assert(self.queued() =~= old(self).queued());
                assert forall|k: int|
                    0 <= k < self.sessions@.len() implies #[trigger] self.session_inv(k) by {
                    assert(old(self).session_inv(k));
                }
            }
        }
    }

    /// Both directions of a closing session are cancelled: it reaches
    /// `Terminated` and releases its broadcast subscription (its pending
    /// buffer is dropped).  Its histories, every other session, and the
    /// queue are untouched: lines it already enqueued are not retracted and
    /// will still be written to the device.
    pub fn finish_close(&mut self, id: u64)
        requires
            old(self).wf(),
            old(self).valid_id(id),
            old(self).session(id).state != SessionState::Active,
        ensures
            final(self).wf(),
            final(self).session(id).state == SessionState::Terminated,
            final(self).session(id).pending@ == Seq::<Line>::empty(),
            final(self).session(id).sent@ == old(self).session(id).sent@,
            final(self).session(id).delivered@ == old(self).session(id).delivered@,
            final(self).session(id).sub_start@ == old(self).session(id).sub_start@,
            final(self).sessions@.len() == old(self).sessions@.len(),
            forall|i: int|
                0 <= i < old(self).sessions@.len() && i != id as int ==> final(self).sessions@[i]
                    == old(self).sessions@[i],
            final(self).queue@ == old(self).queue@,
            final(self).qids@ == old(self).qids@,
            final(self).written@ == old(self).written@,
            final(self).broadcasts@ == old(self).broadcasts@,
            final(self).up == old(self).up,
    {
        // materialize the length so the id-to-index cast below is known exact
        let n = self.sessions.len();
        let i = id as usize;
        assert(i as int == id as int && i < n);
        self.sessions[i].state = SessionState::Terminated;
        self.sessions[i].pending.clear();
        proof {
            assert(self.queued() =~= old(self).queued());
            assert forall|k: int| 0 <= k < self.sessions@.len() implies #[trigger] self.session_inv(
                k,
            ) by {
                assert(old(self).session_inv(k));
            }
        }
    }

    /// The serial device failed (a write or read error, or end of stream):
    /// the forwarder terminates.  Only the flag moves; afterwards
    /// `client_line` accepts nothing and `pop_serial` drains nothing, as
    /// their contracts state.
    pub fn serial_failed(&mut self)
        requires
            old(self).wf(),
        ensures
            final(self).wf(),
            !final(self).up,
            final(self).queue@ == old(self).queue@,
            final(self).qids@ == old(self).qids@,
            final(self).sessions@ == old(self).sessions@,
            final(self).written@ == old(self).written@,
            final(self).broadcasts@ == old(self).broadcasts@,
    {
        self.up = false;
        proof {
            assert(self.queued() =~= old(self).queued());
            assert forall|k: int| 0 <= k < self.sessions@.len() implies #[trigger] self.session_inv(
                k,
            ) by {
                assert(old(self).session_inv(k));
            }
        }
    }

    /// A session's downstream takes the oldest broadcast line buffered for
    /// it, to write to its client.  Returns a line exactly when the session
    /// is `Active` and has one buffered; the line moves from its pending
    /// buffer to its delivered history, and nothing else moves.
    pub fn take_downstream(&mut self, id: u64) -> (r: Option<Line>)
        requires
            old(self).wf(),
            old(self).valid_id(id),
        ensures
            final(self).wf(),
            old(self).session(id).state == SessionState::Active && old(self).session(id).pending@.len() > 0 ==> {
                &&& r == Some(old(self).session(id).pending@[0])
                &&& final(self).session(id).pending@ == old(self).session(id).pending@.drop_first()
                &&& final(self).session(id).delivered@ == old(self).session(id).delivered@.push(
                    old(self).session(id).pending@[0]@,
                )
                &&& final(self).session(id).state == SessionState::Active
                &&& final(self).session(id).sent@ == old(self).session(id).sent@
                &&& final(self).session(id).sub_start@ == old(self).session(id).sub_start@
                &&& final(self).sessions@.len() == old(self).sessions@.len()
                &&& forall|i: int|
                    0 <= i < old(self).sessions@.len() && i != id as int ==> final(self).sessions@[i] == old(self).sessions@[i]
                &&& final(self).queue@ == old(self).queue@
                &&& final(self).qids@ == old(self).qids@
                &&& final(self).written@ == old(self).written@
                &&& final(self).broadcasts@ == old(self).broadcasts@
                &&& final(self).up == old(self).up
            },
            !(old(self).session(id).state == SessionState::Active && old(self).session(id).pending@.len() > 0) ==> r == None::<Line> && *final(self) == *old(self),
    {
        // materialize the length so the id-to-index cast below is known exact
        let n = self.sessions.len();
        let i = id as usize;
        assert(i as int == id as int && i < n);
        if !(self.sessions[i].state == SessionState::Active) {
            return None;
        }
        if self.sessions[i].pending.len() == 0 {
            return None;
        }
        let ghost before = self.sessions@[id as int];
        let line = self.sessions[i].pending.remove(0);
        let ghost old_delivered = self.sessions@[id as int].delivered@;
        self.sessions[i].delivered = Ghost(old_delivered.push(line@));
        proof {
            assert(self.sessions@[id as int].pending@ =~= before.pending@.drop_first());
            assert(self.queued() =~= old(self).queued());
            assert(self.sessions@[id as int].delivered@ + views_of(
                self.sessions@[id as int].pending@,
            ) =~= before.delivered@ + views_of(before.pending@));
            assert forall|k: int| 0 <= k < self.sessions@.len() implies #[trigger] self.session_inv(
                k,
            ) by {
                assert(old(self).session_inv(k));
            }
        }
        Some(line)
    }

    /// How many sessions were ever accepted; ids are `0..` this count.
    pub fn session_count(&self) -> (n: u64)
        ensures
            n as int == self.sessions@.len(),
    {
        self.sessions.len() as u64
    }

    /// The lifecycle state of one session.
    pub fn session_state(&self, id: u64) -> (s: SessionState)
        requires
            self.valid_id(id),
        ensures
            s == self.session(id).state,
    {
        // materialize the length so the id-to-index cast below is known exact
        let n = self.sessions.len();
        let i = id as usize;
        assert(i as int == id as int && i < n);
        self.sessions[i].state
    }

    /// Whether the serial forwarder is still running.
    pub fn is_up(&self) -> (b: bool)
        ensures
            b == self.up,
    {
        self.up
    }

    /// How many lines await the serial write path.
    pub fn queue_len(&self) -> (n: usize)
        ensures
            n == self.queue@.len(),
    {
        self.queue.len()
    }
}

/// Pushing one tagged line extends `lines_from` exactly for its producer.
proof fn lemma_lines_from_push(s: Seq<(int, Seq<u8>)>, p: (int, Seq<u8>), id: int)
    ensures
        lines_from(s.push(p), id) == if p.0 == id {
            lines_from(s, id).push(p.1)
        } else {
            lines_from(s, id)
        },
{
    assert(s.push(p).drop_last() =~= s);
    assert(s.push(p).last() == p);
}

/// A producer that tagged nothing in `s` contributed nothing.
proof fn lemma_lines_from_absent(s: Seq<(int, Seq<u8>)>, id: int)
    requires
        forall|k: int| 0 <= k < s.len() ==> (#[trigger] s[k]).0 != id,
    ensures
        lines_from(s, id) == Seq::<Seq<u8>>::empty(),
    decreases s.len(),
{
    if s.len() > 0 {
        lemma_lines_from_absent(s.drop_last(), id);
    }
}

/// `lines_from` distributes over concatenation.
proof fn lemma_lines_from_concat(a: Seq<(int, Seq<u8>)>, b: Seq<(int, Seq<u8>)>, id: int)
    ensures
        lines_from(a + b, id) == lines_from(a, id) + lines_from(b, id),
    decreases b.len(),
{
    if b.len() == 0 {
        assert(a + b =~= a);
        assert(lines_from(a, id) + lines_from(b, id) =~= lines_from(a, id));
    } else {
        lemma_lines_from_concat(a, b.drop_last(), id);
        assert((a + b).drop_last() =~= a + b.drop_last());
        assert((a + b).last() == b.last());
        if b.last().0 == id {
            assert(lines_from(a, id) + lines_from(b.drop_last(), id).push(b.last().1)
                =~= (lines_from(a, id) + lines_from(b.drop_last(), id)).push(b.last().1));
        }
    }
}

/// Fan-in order, for every reachable hub state: the lines written to the
/// serial device on behalf of one client, followed by the lines still
/// queued for it, are exactly the lines that client sent, in the order it
/// sent them.  In particular, the client's part of the device write history
/// is always a prefix of what it sent: no line is reordered, duplicated or
/// invented within one producer.
pub proof fn lemma_client_order(h: Hub, id: u64)
    requires
        h.wf(),
        h.valid_id(id),
    ensures
        lines_from(h.written@, id as int) + lines_from(h.queued(), id as int) == h.session(
            id,
        ).sent@,
        lines_from(h.written@, id as int).is_prefix_of(h.session(id).sent@),
{
    assert(h.session_inv(id as int));
    lemma_lines_from_concat(h.written@, h.queued(), id as int);
    let w = lines_from(h.written@, id as int);
    let q = lines_from(h.queued(), id as int);
    assert(w =~= (w + q).subrange(0, w.len() as int));
}

/// Fan-out delivery, for every reachable hub state: what an `Active`
/// session has been handed, followed by what is still buffered for it, is
/// exactly the sequence of lines broadcast since it subscribed — each such
/// line once, in order, and no line broadcast before it subscribed.
pub proof fn lemma_broadcast_delivery(h: Hub, id: u64)
    requires
        h.wf(),
        h.valid_id(id),
        h.session(id).state == SessionState::Active,
    ensures
        h.session(id).delivered@ + views_of(h.session(id).pending@) == h.broadcasts@.subrange(
            h.session(id).sub_start@,
            h.broadcasts@.len() as int,
        ),
        h.session(id).delivered@.len() + h.session(id).pending@.len() == h.broadcasts@.len()
            - h.session(id).sub_start@,
{
    assert(h.session_inv(id as int));
    let s = h.session(id);
    assert(views_of(s.pending@).len() == s.pending@.len());
    assert((s.delivered@ + views_of(s.pending@)).len() == s.delivered@.len()
        + views_of(s.pending@).len());
    assert(h.broadcasts@.subrange(s.sub_start@, h.broadcasts@.len() as int).len()
        == h.broadcasts@.len() - s.sub_start@);
}

} // verus!

