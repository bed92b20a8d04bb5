//! The receiving side of the benchmark: what the master and the handler do
//! with each poll of a channel, and the delays that they collect on the way.
use vstd::prelude::*;
use crate::plan::REPORT_INTERVAL;

verus! {

/// What one poll of a channel gave.
#[derive(Clone, Copy, Debug, PartialEq, Eq)]
pub enum Receipt {
    /// Nothing yet.
    Pending,
    /// A message whose delay, in milliseconds, was measured on arrival.
    Delivered(u128),
    /// The channel is closed and drained.
    Closed,
}

/// The numbers of a progress line.
#[derive(Clone, Copy, Debug, PartialEq, Eq)]
pub struct Progress {
    /// Receipts handled so far.
    pub handled: usize,
    /// Delays recorded so far.
    pub received: usize,
}

/// What the master does with a poll of a client's channel.
#[derive(Clone, Copy, Debug, PartialEq, Eq)]
pub enum RelayAction {
    /// Nothing.
    Wait,
    /// Pass the received message on to the handler, then print `progress`
    /// where there is one.
    Forward { progress: Option<Progress> },
    /// Report the closed channel with the count `handled` of receipts before
    /// it, and send the handler a fresh timestamp in place of a message.
    ForwardNow { handled: usize },
}

/// What the handler does with a poll of its channel.
#[derive(Clone, Copy, Debug, PartialEq, Eq)]
pub enum SinkAction {
    /// Nothing.
    Wait,
    /// The delay was recorded; print `progress` where there is one.
    Recorded { progress: Option<Progress> },
    /// The channel is closed: report it and stop.
    Stop,
}

/// The delays that a receiving process has collected, the receipts it has
/// counted, how many it waits for, and whether its channel has closed.
#[derive(Debug)]
pub struct DelayLog {
    count: usize,
    target: usize,
    delays: Vec<u128>,
    closed: bool,
}

/// The state of a `DelayLog`.
pub struct LogView {
    pub count: nat,
    pub target: nat,
    pub delays: Seq<u128>,
    pub closed: bool,
}

impl View for DelayLog {
    type V = LogView;

    closed spec fn view(&self) -> LogView {
        LogView {
            count: self.count as nat,
            target: self.target as nat,
            delays: self.delays@,
            closed: self.closed,
        }
    }
}

/// Whether a count is one at which a progress line is printed.
pub open spec fn is_report_count(count: nat) -> bool {
    count % (REPORT_INTERVAL as nat) == 0
}

impl LogView {
    /// Every recorded delay was counted.
    pub open spec fn wf(self) -> bool {
        &&& self.delays.len() <= self.count
        &&& self.count <= usize::MAX
        &&& self.target <= usize::MAX
    }

    /// Whether the process keeps polling.
    pub open spec fn running(self) -> bool {
        !self.closed && self.count < self.target
    }

    /// The state after recording one delay.
    pub open spec fn record(self, d: u128) -> LogView {
        LogView { count: self.count + 1, delays: self.delays.push(d), ..self }
    }

    /// The state after counting a receipt that carries no delay.
    pub open spec fn skip(self) -> LogView {
        LogView { count: self.count + 1, ..self }
    }

    /// The progress line due in this state, if any.
    pub open spec fn progress(self) -> Option<Progress> {
        if is_report_count(self.count) {
            Some(Progress { handled: self.count as usize, received: self.delays.len() as usize })
        } else {
            None
        }
    }

    /// The master's state after a receipt.
    pub open spec fn relay(self, r: Receipt) -> LogView {
        match r {
            Receipt::Pending => self,
            Receipt::Delivered(d) => self.record(d),
            Receipt::Closed => self.skip(),
        }
    }

    /// The master's action on a receipt.
    pub open spec fn relay_action(self, r: Receipt) -> RelayAction {
        match r {
            Receipt::Pending => RelayAction::Wait,
            Receipt::Delivered(d) => RelayAction::Forward { progress: self.record(d).progress() },
            Receipt::Closed => RelayAction::ForwardNow { handled: self.count as usize },
        }
    }

    /// The handler's state after a receipt.
    pub open spec fn sink(self, r: Receipt) -> LogView {
        match r {
            Receipt::Pending => self,
            Receipt::Delivered(d) => self.record(d),
            Receipt::Closed => LogView { closed: true, ..self },
        }
    }

    /// The handler's action on a receipt.
    pub open spec fn sink_action(self, r: Receipt) -> SinkAction {
        match r {
            Receipt::Pending => SinkAction::Wait,
            Receipt::Delivered(d) => SinkAction::Recorded { progress: self.record(d).progress() },
            Receipt::Closed => SinkAction::Stop,
        }
    }

    /// The state of the master of the thread version after a poll that gave
    /// `received` (`None` for an empty or disconnected channel).
    pub open spec fn tally(self, received: Option<u128>) -> LogView {
        match received {
            Some(d) => self.record(d),
            None => self,
        }
    }

    /// The master's state after the receipts `rs`, in order.
    pub open spec fn relay_all(self, rs: Seq<Receipt>) -> LogView
        decreases rs.len(),
    {
        if rs.len() == 0 {
            self
        } else {
            self.relay_all(rs.drop_last()).relay(rs.last())
        }
    }

    /// The handler's state after the receipts `rs`, in order.
    pub open spec fn sink_all(self, rs: Seq<Receipt>) -> LogView
        decreases rs.len(),
    {
        if rs.len() == 0 {
            self
        } else {
            self.sink_all(rs.drop_last()).sink(rs.last())
        }
    }
}

/// The delays that the receipts `rs` carry, in order.
pub open spec fn delivered(rs: Seq<Receipt>) -> Seq<u128>
    decreases rs.len(),
{
    if rs.len() == 0 {
        Seq::empty()
    } else {
        match rs.last() {
            Receipt::Delivered(d) => delivered(rs.drop_last()).push(d),
            _ => delivered(rs.drop_last()),
        }
    }
}

/// The number of receipts in `rs` that are not `Pending`.
pub open spec fn replies(rs: Seq<Receipt>) -> nat
    decreases rs.len(),
{
    if rs.len() == 0 {
        0
    } else {
        replies(rs.drop_last()) + if rs.last() is Pending {
            0nat
        } else {
            1nat
        }
    }
}

impl DelayLog {
    /// A process that waits for `target` receipts and has counted none.
    pub fn new(target: usize) -> (log: DelayLog)
        ensures
            log@ == (LogView { count: 0, target: target as nat, delays: Seq::empty(), closed: false }),
            log@.wf(),
    {
        DelayLog { count: 0, target, delays: Vec::new(), closed: false }
    }

    /// Whether the process keeps polling: its channel is open and it has
    /// counted fewer receipts than it waits for.
    pub fn running(&self) -> (r: bool)
        ensures
            r == self@.running(),
    {
        !self.closed && self.count < self.target
    }

    /// Receipts counted so far.
    pub fn count(&self) -> (n: usize)
        ensures
            n == self@.count,
    {
        self.count
    }

    /// Delays recorded so far.
    pub fn received(&self) -> (n: usize)
        ensures
            n == self@.delays.len(),
    {
        self.delays.len()
    }

    /// Whether the channel was seen closed.
    pub fn is_closed(&self) -> (c: bool)
        ensures
            c == self@.closed,
    {
        self.closed
    }

    /// The recorded delays, in the order they arrived.
    pub fn into_delays(self) -> (delays: Vec<u128>)
        ensures
            delays@ == self@.delays,
    {
        self.delays
    }

    fn record(&mut self, d: u128) -> (progress: Option<Progress>)
        requires
            old(self)@.wf(),
            old(self)@.count < usize::MAX,
        ensures
            final(self)@ == old(self)@.record(d),
            progress == old(self)@.record(d).progress(),
            final(self)@.wf(),
    {
        self.count = self.count + 1;
        self.delays.push(d);
        if self.count % REPORT_INTERVAL == 0 {
            Some(Progress { handled: self.count, received: self.delays.len() })
        } else {
            None
        }
    }

    /// The master's step on a poll of a client's channel: a message is
    /// recorded, counted and forwarded; a closed channel is counted and
    /// answered with a fresh timestamp; nothing happens on `Pending`.
    pub fn relay_step(&mut self, r: Receipt) -> (action: RelayAction)
        requires
            old(self)@.wf(),
            old(self)@.count < usize::MAX,
        ensures
            final(self)@ == old(self)@.relay(r),
            action == old(self)@.relay_action(r),
            final(self)@.wf(),
    {
        match r {
            Receipt::Pending => RelayAction::Wait,
            Receipt::Delivered(d) => {
                let progress = self.record(d);
                RelayAction::Forward { progress }
            },
            Receipt::Closed => {
                let handled = self.count;
                self.count = self.count + 1;
                RelayAction::ForwardNow { handled }
            },
        }
    }

    /// The handler's step on a poll of its channel: a message is recorded
    /// and counted; a closed channel stops the handler; nothing happens on
    /// `Pending`.
    pub fn sink_step(&mut self, r: Receipt) -> (action: SinkAction)
        requires
            old(self)@.wf(),
            old(self)@.count < usize::MAX,
        ensures
            final(self)@ == old(self)@.sink(r),
            action == old(self)@.sink_action(r),
            final(self)@.wf(),
    {
        match r {
            Receipt::Pending => SinkAction::Wait,
            Receipt::Delivered(d) => {
                let progress = self.record(d);
                SinkAction::Recorded { progress }
            },
            Receipt::Closed => {
                self.closed = true;
                SinkAction::Stop
            },
        }
    }

    /// The step of the master of the thread version on a poll that gave
    /// `received`: a message is recorded and counted, nothing else happens.
    pub fn tally_step(&mut self, received: Option<u128>)
        requires
            old(self)@.wf(),
            old(self)@.count < usize::MAX,
        ensures
            final(self)@ == old(self)@.tally(received),
            final(self)@.wf(),
    {
        if let Some(d) = received {
            let _ = self.record(d);
        }
    }
}

/// The handler records the delays of the messages it is given in the order
/// they arrive, counts exactly those messages, and stays open, as long as its
/// channel does not close.
pub proof fn lemma_sink_records_in_arrival_order(v: LogView, rs: Seq<Receipt>)
    requires
        forall|i: int| 0 <= i < rs.len() ==> rs[i] != Receipt::Closed,
    ensures
        v.sink_all(rs).delays == v.delays + delivered(rs),
        v.sink_all(rs).count == v.count + delivered(rs).len(),
        v.sink_all(rs).target == v.target,
        v.sink_all(rs).closed == v.closed,
    decreases rs.len(),
{
    if rs.len() > 0 {
        let p = rs.drop_last();
        assert forall|i: int| 0 <= i < p.len() implies p[i] != Receipt::Closed by {
            assert(p[i] == rs[i]);
        }
        lemma_sink_records_in_arrival_order(v, p);
        assert(rs.last() == rs[rs.len() - 1]);
        assert(v.delays + delivered(p).push(rs.last()->0) =~= (v.delays + delivered(p)).push(
            rs.last()->0,
        ));
    }
}

/// The handler stops exactly when its channel closes: a closed poll stops
/// it, whatever it had counted, and records nothing.
pub proof fn lemma_sink_stops_on_close(v: LogView)
    ensures
        v.sink_action(Receipt::Closed) == SinkAction::Stop,
        v.sink(Receipt::Closed).closed,
        !v.sink(Receipt::Closed).running(),
        v.sink(Receipt::Closed).delays == v.delays,
        v.sink(Receipt::Closed).count == v.count,
{
}

/// The master counts every reply, closed channels included, records the
/// delays of the messages in the order they arrive, and forwards one message
/// to the handler per reply.
pub proof fn lemma_relay_counts_every_reply(v: LogView, rs: Seq<Receipt>)
    ensures
        v.relay_all(rs).delays == v.delays + delivered(rs),
        v.relay_all(rs).count == v.count + replies(rs),
        v.relay_all(rs).target == v.target,
        v.relay_all(rs).closed == v.closed,
        delivered(rs).len() <= replies(rs),
    decreases rs.len(),
{
    if rs.len() > 0 {
        let p = rs.drop_last();
        lemma_relay_counts_every_reply(v, p);
        assert(v.delays + delivered(p).push(rs.last()->0) =~= (v.delays + delivered(p)).push(
            rs.last()->0,
        ));
    }
}

/// The master of the thread version counts exactly the messages it records:
/// an empty or disconnected channel changes nothing, so a log that starts
/// empty ends with as many delays as its count.
pub proof fn lemma_tally_counts_only_messages(v: LogView, received: Option<u128>)
    ensures
        v.tally(received).count - v.tally(received).delays.len() == v.count - v.delays.len(),
        received is None ==> v.tally(received) == v,
{
}

/// The master polls both clients once per loop pass and checks its count
/// only between passes, so from a running state a pass leaves it with at most
/// one receipt more than it waits for.
pub proof fn lemma_relay_pass_overshoots_by_at_most_one(v: LogView, first: Receipt, second: Receipt)
    requires
        v.running(),
    ensures
        v.relay(first).relay(second).count <= v.target + 1,
        v.relay(first).relay(second).count >= v.count,
{
}

/// The number of messages that the master sends the handler while it handles
/// the receipts `rs`, in order: one per `Forward` or `ForwardNow`.
pub open spec fn forwarded(v: LogView, rs: Seq<Receipt>) -> nat
    decreases rs.len(),
{
    if rs.len() == 0 {
        0
    } else {
        forwarded(v, rs.drop_last()) + if v.relay_all(rs.drop_last()).relay_action(
            rs.last(),
        ) is Wait {
            0nat
        } else {
            1nat
        }
    }
}

/// Every closed poll of a client's channel, whatever came before it, is
/// reported with the count before the poll, counted, and answered by sending
/// the handler a fresh timestamp; no delay is recorded for it.
pub proof fn lemma_relay_answers_every_closed_poll(v: LogView)
    requires
        v.wf(),
    ensures
        v.relay_action(Receipt::Closed) == (RelayAction::ForwardNow { handled: v.count as usize }),
        v.relay(Receipt::Closed).count == v.count + 1,
        v.relay(Receipt::Closed).delays == v.delays,
{
}

/// The master sends the handler exactly one message per reply it gets,
/// message or closed channel, and none for a `Pending` poll.
pub proof fn lemma_relay_forwards_once_per_reply(v: LogView, rs: Seq<Receipt>)
    ensures
        forwarded(v, rs) == replies(rs),
    decreases rs.len(),
{
    if rs.len() > 0 {
        lemma_relay_forwards_once_per_reply(v, rs.drop_last());
    }
}

/// Every message that reaches the master or the handler is counted, and its
/// delay appended in full, a zero delay included; a `Pending` poll changes
/// nothing.
pub proof fn lemma_every_message_is_recorded(v: LogView, d: u128)
    ensures
        v.relay(Receipt::Delivered(d)).count == v.count + 1,
        v.relay(Receipt::Delivered(d)).delays == v.delays.push(d),
        v.sink(Receipt::Delivered(d)).count == v.count + 1,
        v.sink(Receipt::Delivered(d)).delays == v.delays.push(d),
        v.relay_action(Receipt::Delivered(d)) is Forward,
        v.sink_action(Receipt::Delivered(d)) is Recorded,
        v.relay(Receipt::Pending) == v,
        v.sink(Receipt::Pending) == v,
        v.relay_action(Receipt::Pending) == RelayAction::Wait,
        v.sink_action(Receipt::Pending) == SinkAction::Wait,
{
}

/// The master of the thread version records every message it receives,
/// a zero delay included: the count grows by one and the delay is appended;
/// a poll that received nothing changes nothing.
pub proof fn lemma_tally_records_every_message(v: LogView, d: u128)
    ensures
        v.tally(Some(d)).count == v.count + 1,
        v.tally(Some(d)).delays == v.delays.push(d),
        v.tally(Some(d)).target == v.target,
        v.tally(Some(d)).closed == v.closed,
        v.tally(None) == v,
{
}

/// A progress line follows a recorded message exactly when the new count is
/// a multiple of `REPORT_INTERVAL`, and it shows the new count and the new
/// number of delays.
pub proof fn lemma_progress_every_report_interval(v: LogView, d: u128)
    requires
        v.wf(),
        v.count < usize::MAX,
    ensures
        ((v.count + 1) % (REPORT_INTERVAL as nat) == 0) ==> v.relay_action(Receipt::Delivered(d))
            == (RelayAction::Forward {
            progress: Some(
                Progress { handled: (v.count + 1) as usize, received: (v.delays.len() + 1) as usize },
            ),
        }) && v.sink_action(Receipt::Delivered(d)) == (SinkAction::Recorded {
            progress: Some(
                Progress { handled: (v.count + 1) as usize, received: (v.delays.len() + 1) as usize },
            ),
        }),
        ((v.count + 1) % (REPORT_INTERVAL as nat) != 0) ==> v.relay_action(Receipt::Delivered(d))
            == (RelayAction::Forward { progress: None }) && v.sink_action(Receipt::Delivered(d))
            == (SinkAction::Recorded { progress: None }),
{
}

/// A receiving process keeps polling exactly while its channel is open and it
/// has counted fewer receipts than it waits for; a fresh one starts with no
/// receipts, no delays and an open channel.
pub proof fn lemma_running_until_target_or_close(v: LogView, target: nat)
    ensures
        v.running() <==> !v.closed && v.count < v.target,
        (LogView { count: 0, target, delays: Seq::empty(), closed: false }).running() <==> target
            > 0,
{
}

} // verus!
