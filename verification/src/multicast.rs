//! Periodic multicast senders: their settings, their running state and the
//! registry that hands out their indices.

use vstd::prelude::*;
use crate::text::{decimal, push_decimal};

verus! {

/// A sender that sends `data` to a multicast group every `interval_ms`
/// milliseconds once started.
pub struct MulticastSender {
    /// `<group>:<port>`, the socket address the datagrams go to.
    pub target: String,
    /// The local socket address the sender binds.
    pub bind_addr: String,
    pub data: Vec<u8>,
    pub interval_ms: u64,
    running: bool,
}

/// The plain values of a `MulticastSender`.
pub struct MulticastSenderView {
    pub target: Seq<char>,
    pub bind_addr: Seq<char>,
    pub data: Seq<u8>,
    pub interval_ms: u64,
    pub running: bool,
}

impl View for MulticastSender {
    type V = MulticastSenderView;

    closed spec fn view(&self) -> MulticastSenderView {
        MulticastSenderView {
            target: self.target@,
            bind_addr: self.bind_addr@,
            data: self.data@,
            interval_ms: self.interval_ms,
            running: self.running_spec(),
        }
    }
}

/// `<group>:<port>`
pub open spec fn target_text(multicast_addr: Seq<char>, port: u16) -> Seq<char> {
    multicast_addr + ":"@ + decimal(port as nat)
}

/// The error of starting a sender that runs already.
pub open spec fn already_started_error() -> Seq<char> {
    "组播已启动"@
}

impl MulticastSender {
    pub closed spec fn running_spec(&self) -> bool {
        self.running
    }

    /// A stopped sender to `<multicast_addr>:<port>`, bound to `0.0.0.0:0`.
    /// `target_parse` is the outcome of reading that target as a socket
    /// address; when it failed, its error is the sender's error.
    pub fn new(
        multicast_addr: &str,
        port: u16,
        data: Vec<u8>,
        interval_ms: u64,
        target_parse: Result<(), String>,
    ) -> (r: Result<MulticastSender, String>)
        ensures
            match target_parse {
                Ok(()) => r matches Ok(s) && s@ == (MulticastSenderView {
                    target: target_text(multicast_addr@, port),
                    bind_addr: "0.0.0.0:0"@,
                    data: data@,
                    interval_ms,
                    running: false,
                }),
                Err(e) => r matches Err(m) && m@ == e@,
            },
    {
        if let Err(e) = target_parse {
            return Err(e);
        }
        let mut target = String::from_str(multicast_addr);
        target.append(":");
        push_decimal(&mut target, port as u64);
        Ok(
            MulticastSender {
                target,
                bind_addr: String::from_str("0.0.0.0:0"),
                data,
                interval_ms,
                running: false,
            },
        )
    }

    /// The same sender bound to `bind_addr`.
    pub fn with_bind_addr(self, bind_addr: &str) -> (s: MulticastSender)
        ensures
            s@ == (MulticastSenderView { bind_addr: bind_addr@, ..self@ }),
    {
        MulticastSender { bind_addr: String::from_str(bind_addr), ..self }
    }

    /// Checks that the sender may start: a running sender is refused.
    pub fn check_start(&self) -> (r: Result<(), String>)
        ensures
            r is Ok <==> !self@.running,
            r matches Err(e) ==> e@ == already_started_error(),
    {
        if self.running {
            Err(String::from_str("组播已启动"))
        } else {
            Ok(())
        }
    }

    /// Marks the sender as running, once its task is started.
    pub fn mark_started(&mut self)
        ensures
            final(self)@ == (MulticastSenderView { running: true, ..old(self)@ }),
    {
        self.running = true;
    }

    /// Marks the sender as stopped.
    pub fn stop(&mut self)
        ensures
            final(self)@ == (MulticastSenderView { running: false, ..old(self)@ }),
    {
        self.running = false;
    }

    /// Whether the sender runs.
    pub fn is_running(&self) -> (b: bool)
        ensures
            b == self@.running,
    {
        self.running
    }
}

/// The error for an index that names no sender.
pub open spec fn invalid_index_error(index: usize) -> Seq<char> {
    "无效的发送器索引: "@ + decimal(index as nat)
}

/// The number of running senders among `s`.
pub open spec fn running_count(s: Seq<MulticastSenderView>) -> nat
    decreases s.len(),
{
    if s.len() == 0 {
        0
    } else {
        running_count(s.drop_last()) + if s.last().running {
            1nat
        } else {
            0nat
        }
    }
}

/// The error of a sender that could not be created.
pub open spec fn create_failed_error(e: Seq<char>) -> Seq<char> {
    "创建组播发送器失败: "@ + e
}

/// The error of a sender that could not be started.
pub open spec fn start_failed_error(e: Seq<char>) -> Seq<char> {
    "启动组播发送器失败: "@ + e
}

/// A created sender by its plain values, or the error of creating it.
pub open spec fn sender_created(created: Result<MulticastSender, String>) -> Result<
    MulticastSenderView,
    Seq<char>,
> {
    match created {
        Ok(s) => Ok(s@),
        Err(e) => Err(e@),
    }
}

/// What creating and starting a sender does to the senders `before`,
/// giving `after` and the result `r`: a creation error or a start error
/// (a sender running already, or `started` failing) leaves the senders as
/// they were; otherwise the sender, now running, gets the next index.
pub open spec fn create_outcome(
    before: Seq<MulticastSenderView>,
    after: Seq<MulticastSenderView>,
    created: Result<MulticastSenderView, Seq<char>>,
    started: Result<(), String>,
    r: Result<usize, String>,
) -> bool {
    match created {
        Err(e) => r matches Err(m) && m@ == create_failed_error(e) && after == before,
        Ok(v) => if v.running {
            r matches Err(m) && m@ == start_failed_error(already_started_error()) && after == before
        } else {
            match started {
                Err(e) => r matches Err(m) && m@ == start_failed_error(e@) && after == before,
                Ok(()) => r matches Ok(i) && i == before.len() && after == before.push(
                    MulticastSenderView { running: true, ..v },
                ),
            }
        },
    }
}

/// The indices of the running senders among `s`.
pub open spec fn running_indices(s: Seq<MulticastSenderView>) -> Set<int> {
    Set::new(|i: int| 0 <= i < s.len() && s[i].running)
}

/// The count of running senders is the number of indices whose sender
/// runs.
pub proof fn law_count_is_running_indices(s: Seq<MulticastSenderView>)
    ensures
        running_indices(s).finite(),
        running_count(s) == running_indices(s).len(),
    decreases s.len(),
{
    if s.len() == 0 {
        assert(running_indices(s) =~= Set::<int>::empty());
    } else {
        let t = s.drop_last();
        law_count_is_running_indices(t);
        if s.last().running {
            assert(running_indices(s) =~= running_indices(t).insert(s.len() - 1));
        } else {
            assert(running_indices(s) =~= running_indices(t));
        }
    }
}

/// A sender created successfully gets the next position among all senders,
/// stopped ones included, and is found there, running; the senders before
/// it are kept as they were.
pub proof fn law_create_index(
    before: Seq<MulticastSenderView>,
    after: Seq<MulticastSenderView>,
    created: Result<MulticastSenderView, Seq<char>>,
    started: Result<(), String>,
    r: Result<usize, String>,
)
    requires
        create_outcome(before, after, created, started, r),
    ensures
        r matches Ok(i) ==> {
            &&& i == before.len()
            &&& after.len() == before.len() + 1
            &&& created matches Ok(v) && after[i as int] == (MulticastSenderView { running: true, ..v })
            &&& after.subrange(0, before.len() as int) == before
        },
{
    if r is Ok {
        assert(after.subrange(0, before.len() as int) =~= before);
    }
}

/// Creating a sender adds one running sender when it succeeds and changes
/// nothing when it fails.
pub proof fn law_count_after_create(
    before: Seq<MulticastSenderView>,
    after: Seq<MulticastSenderView>,
    created: Result<MulticastSenderView, Seq<char>>,
    started: Result<(), String>,
    r: Result<usize, String>,
)
    requires
        create_outcome(before, after, created, started, r),
    ensures
        r is Ok ==> running_count(after) == running_count(before) + 1,
        r is Err ==> running_count(after) == running_count(before),
{
    if r is Ok {
        assert(after.drop_last() =~= before);
    }
}

/// Stopping the sender at `index` takes one from the running senders if it
/// ran, and changes nothing otherwise.
pub proof fn law_count_after_stop(before: Seq<MulticastSenderView>, index: int)
    requires
        0 <= index < before.len(),
    ensures
        running_count(before.update(index, MulticastSenderView { running: false, ..before[index] }))
            == running_count(before) - if before[index].running {
            1int
        } else {
            0int
        },
    decreases before.len(),
{
    let after = before.update(index, MulticastSenderView { running: false, ..before[index] });
    if index == before.len() - 1 {
        assert(after.drop_last() =~= before.drop_last());
    } else {
        law_count_after_stop(before.drop_last(), index);
        assert(after.drop_last() =~= before.drop_last().update(
            index,
            MulticastSenderView { running: false, ..before[index] },
        ));
    }
}

/// One change to the senders: a sender created and started (by its plain
/// values), or a stop of the sender at an index.
pub enum SenderOp {
    Create(MulticastSenderView),
    Stop(usize),
}

/// The senders after `ops`, starting from none (as after
/// `stop_all_multicast_senders`): a created sender is appended, running; a
/// stop marks the sender at its index stopped, and an index that names no
/// sender changes nothing.
pub open spec fn replay(ops: Seq<SenderOp>) -> Seq<MulticastSenderView>
    decreases ops.len(),
{
    if ops.len() == 0 {
        Seq::empty()
    } else {
        let s = replay(ops.drop_last());
        match ops.last() {
            SenderOp::Create(v) => s.push(MulticastSenderView { running: true, ..v }),
            SenderOp::Stop(i) => if i < s.len() {
                s.update(i as int, MulticastSenderView { running: false, ..s[i as int] })
            } else {
                s
            },
        }
    }
}

/// The number of creations among `ops`.
pub open spec fn creations(ops: Seq<SenderOp>) -> nat
    decreases ops.len(),
{
    if ops.len() == 0 {
        0
    } else {
        creations(ops.drop_last()) + if ops.last() is Create {
            1nat
        } else {
            0nat
        }
    }
}

/// The number of stops among `ops` that stopped a running sender.
pub open spec fn effective_stops(ops: Seq<SenderOp>) -> nat
    decreases ops.len(),
{
    if ops.len() == 0 {
        0
    } else {
        let s = replay(ops.drop_last());
        effective_stops(ops.drop_last()) + match ops.last() {
            SenderOp::Stop(i) => if i < s.len() && s[i as int].running {
                1nat
            } else {
                0nat
            },
            SenderOp::Create(_) => 0nat,
        }
    }
}

/// After any history of creations and stops since the senders were last
/// cleared, the running senders number the creations less the stops that
/// stopped a running sender.
pub proof fn law_count_of_history(ops: Seq<SenderOp>)
    ensures
        running_count(replay(ops)) == creations(ops) - effective_stops(ops),
        effective_stops(ops) <= creations(ops),
    decreases ops.len(),
{
    if ops.len() > 0 {
        let prev = ops.drop_last();
        law_count_of_history(prev);
        let s = replay(prev);
        match ops.last() {
            SenderOp::Create(v) => {
                assert(replay(ops).drop_last() =~= s);
            },
            SenderOp::Stop(i) => {
                if i < s.len() {
                    law_count_after_stop(s, i as int);
                }
            },
        }
    }
}

/// The senders created so far; a sender's index is its position.
pub struct MulticastSenderRegistry {
    senders: Vec<MulticastSender>,
}

impl MulticastSenderRegistry {
    /// The senders, by index.
    pub closed spec fn view(&self) -> Seq<MulticastSenderView> {
        self.senders@.map_values(|s: MulticastSender| s@)
    }

    /// A registry with no sender.
    pub fn new() -> (r: MulticastSenderRegistry)
        ensures
            r.view() == Seq::<MulticastSenderView>::empty(),
    {
        let r = MulticastSenderRegistry { senders: Vec::new() };
        assert(r.view() =~= Seq::<MulticastSenderView>::empty());
        r
    }

    /// Adds a started sender and returns its index.
    pub fn add(&mut self, sender: MulticastSender) -> (index: usize)
        ensures
            index == old(self).view().len(),
            final(self).view() == old(self).view().push(sender@),
    {
        let ghost sv = sender@;
        self.senders.push(sender);
        assert(self.view() =~= old(self).view().push(sv));
        self.senders.len() - 1
    }

    /// Stops the sender at `index`; the sender keeps its index.
    pub fn stop_multicast_sender(&mut self, index: usize) -> (r: Result<(), String>)
        ensures
            r is Ok <==> index < old(self).view().len(),
            r matches Err(e) ==> e@ == invalid_index_error(index) && final(self).view() == old(
                self,
            ).view(),
            r is Ok ==> final(self).view() == old(self).view().update(
                index as int,
                MulticastSenderView { running: false, ..old(self).view()[index as int] },
            ),
    {
        if index >= self.senders.len() {
            let mut e = String::from_str("无效的发送器索引: ");
            push_decimal(&mut e, index as u64);
            return Err(e);
        }
        let mut s = self.senders.remove(index);
        s.stop();
        self.senders.insert(index, s);
        assert(self.view() =~= old(self).view().update(
            index as int,
            MulticastSenderView { running: false, ..old(self).view()[index as int] },
        ));
        Ok(())
    }

    /// Stops and forgets every sender.
    pub fn stop_all_multicast_senders(&mut self)
        ensures
            final(self).view() == Seq::<MulticastSenderView>::empty(),
    {
        self.senders = Vec::new();
        assert(self.view() =~= Seq::<MulticastSenderView>::empty());
    }

    /// The number of running senders.
    pub fn get_multicast_sender_count(&self) -> (n: usize)
        ensures
            n == running_count(self.view()),
    {
        let ghost v = self.view();
        let mut n: usize = 0;
        let mut i: usize = 0;
        while i < self.senders.len()
            invariant
                i <= self.senders.len(),
                v == self.view(),
                n <= i,
                n == running_count(v.take(i as int)),
            decreases self.senders.len() - i,
        {
            assert(v.take(i + 1).drop_last() =~= v.take(i as int));
            assert(v.take(i + 1).last() == self.senders@[i as int]@);
            if self.senders[i].is_running() {
                n = n + 1;
            }
            i = i + 1;
        }
        assert(v.take(self.senders.len() as int) =~= v);
        n
    }

    /// Registers a newly created sender once its socket is bound, and
    /// returns its index. `created` is the sender or the error of creating
    /// it; `started` is the outcome of binding its socket.
    pub fn create_multicast_sender(
        &mut self,
        created: Result<MulticastSender, String>,
        started: Result<(), String>,
    ) -> (r: Result<usize, String>)
        ensures
            create_outcome(old(self).view(), final(self).view(), sender_created(created), started, r),
            r matches Ok(i) ==> i == old(self).view().len() && final(self).view().len() == i + 1
                && final(self).view()[i as int].running,
    {
        let s = match created {
            Ok(s) => s,
            Err(e) => {
                let mut m = String::from_str("创建组播发送器失败: ");
                m.append(e.as_str());
                return Err(m);
            },
        };
        self.start_and_add(s, started)
    }

    /// Like `create_multicast_sender`, with the sender bound to `bind_addr`.
    pub fn create_multicast_sender_with_bind(
        &mut self,
        created: Result<MulticastSender, String>,
        bind_addr: &str,
        started: Result<(), String>,
    ) -> (r: Result<usize, String>)
        ensures
            create_outcome(
                old(self).view(),
                final(self).view(),
                match sender_created(created) {
                    Ok(v) => Ok(MulticastSenderView { bind_addr: bind_addr@, ..v }),
                    Err(e) => Err(e),
                },
                started,
                r,
            ),
            r matches Ok(i) ==> i == old(self).view().len() && final(self).view().len() == i + 1
                && final(self).view()[i as int].running && final(self).view()[i as int].bind_addr
                == bind_addr@,
    {
        let s = match created {
            Ok(s) => s.with_bind_addr(bind_addr),
            Err(e) => {
                let mut m = String::from_str("创建组播发送器失败: ");
                m.append(e.as_str());
                return Err(m);
            },
        };
        self.start_and_add(s, started)
    }

    fn start_and_add(&mut self, s: MulticastSender, started: Result<(), String>) -> (r: Result<
        usize,
        String,
    >)
        ensures
            create_outcome(
                old(self).view(),
                final(self).view(),
                Ok::<MulticastSenderView, Seq<char>>(s@),
                started,
                r,
            ),
            r matches Ok(i) ==> i == old(self).view().len() && final(self).view().len() == i + 1
                && final(self).view()[i as int] == (MulticastSenderView { running: true, ..s@ }),
    {
        let mut s = s;
        if let Err(e) = s.check_start() {
            let mut m = String::from_str("启动组播发送器失败: ");
            m.append(e.as_str());
            return Err(m);
        }
        if let Err(e) = started {
            let mut m = String::from_str("启动组播发送器失败: ");
            m.append(e.as_str());
            return Err(m);
        }
        s.mark_started();
        Ok(self.add(s))
    }

    /// Whether the sender at `index` runs; `false` for an index that names
    /// no sender.
    pub fn is_multicast_sender_running(&self, index: usize) -> (b: bool)
        ensures
            b == (index < self.view().len() && self.view()[index as int].running),
    {
        if index >= self.senders.len() {
            return false;
        }
        self.senders[index].is_running()
    }
}

} // verus!
