//! The bus capability the driver consumes, and a bus that keeps a record of
//! what it was asked to do.

use vstd::prelude::*;
use vstd::slice::slice_to_vec;

verus! {

/// One completed transaction on the bus, as contracts see it.
pub enum BusEvent {
    /// A block write of `bytes` to the device at `address`.
    Write { address: u8, bytes: Seq<u8> },
    /// A block write of `bytes` to the device at `address` that failed.
    Refused { address: u8, bytes: Seq<u8> },
    /// A pause of `ms` milliseconds.
    Delay { ms: u8 },
}

/// A two-wire bus together with a blocking delay.
///
/// The driver is written against this capability alone. The trace is the
/// history of what the bus was asked to do: every block write is appended to
/// it, as written where it succeeds and as refused where it fails, and so is
/// every delay.
pub trait Bus {
    /// What a failed block write reports.
    type Error;

    /// Everything this bus was asked to do so far, oldest first.
    spec fn trace(&self) -> Seq<BusEvent>;

    /// Sends `bytes` to the device at `address` as a single block write.
    fn write(&mut self, address: u8, bytes: &[u8]) -> (res: Result<(), Self::Error>)
        ensures
            res is Ok ==> final(self).trace() == old(self).trace().push(
                BusEvent::Write { address, bytes: bytes@ },
            ),
            res is Err ==> final(self).trace() == old(self).trace().push(
                BusEvent::Refused { address, bytes: bytes@ },
            ),
    ;

    /// Blocks for `ms` milliseconds.
    fn delay_ms(&mut self, ms: u8)
        ensures
            final(self).trace() == old(self).trace().push(BusEvent::Delay { ms }),
    ;
}

/// A two-wire bus with a blocking delay as a HAL provides them: the two
/// operations and nothing known about them.
pub trait Transport {
    /// What a failed block write reports.
    type Error;

    /// Sends `bytes` to the device at `address` as a single block write.
    fn write(&mut self, address: u8, bytes: &[u8]) -> Result<(), Self::Error>;

    /// Blocks for `ms` milliseconds.
    fn delay_ms(&mut self, ms: u8);
}

/// A [`Transport`] made into a [`Bus`]: every call is passed on to the
/// transport as it comes, and noted in the trace with how it ended.
pub struct Traced<T> {
    inner: T,
    trace: Ghost<Seq<BusEvent>>,
}

impl<T: Transport> Traced<T> {
    /// The transport that the calls are passed on to.
    pub closed spec fn transport(&self) -> T {
        self.inner
    }

    /// Wraps `inner`, with nothing in the trace yet.
    pub fn new(inner: T) -> (bus: Self)
        ensures
            bus.transport() == inner,
            bus.trace() == Seq::<BusEvent>::empty(),
    {
        Traced { inner, trace: Ghost(Seq::empty()) }
    }

    /// Gives the transport back.
    pub fn release(self) -> (inner: T)
        ensures
            inner == self.transport(),
    {
        self.inner
    }
}

impl<T: Transport> Bus for Traced<T> {
    type Error = T::Error;

    closed spec fn trace(&self) -> Seq<BusEvent> {
        self.trace@
    }

    fn write(&mut self, address: u8, bytes: &[u8]) -> (res: Result<(), T::Error>) {
        let res = self.inner.write(address, bytes);
        proof {
            self.trace@ = if res is Ok {
                self.trace@.push(BusEvent::Write { address, bytes: bytes@ })
            } else {
                self.trace@.push(BusEvent::Refused { address, bytes: bytes@ })
            };
        }
        res
    }

    fn delay_ms(&mut self, ms: u8) {
        self.inner.delay_ms(ms);
        proof {
            self.trace@ = self.trace@.push(BusEvent::Delay { ms });
        }
    }
}

/// One recorded transaction of a [`RecordingBus`].
#[derive(Clone, Debug, PartialEq, Eq)]
pub enum Transaction {
    /// A block write of `bytes` to the device at `address`.
    Write { address: u8, bytes: Vec<u8> },
    /// A block write of `bytes` to the device at `address` that failed.
    Refused { address: u8, bytes: Vec<u8> },
    /// A pause of `ms` milliseconds.
    Delay { ms: u8 },
}

impl View for Transaction {
    type V = BusEvent;

    open spec fn view(&self) -> BusEvent {
        match *self {
            Transaction::Write { address, bytes } => BusEvent::Write { address, bytes: bytes@ },
            Transaction::Refused { address, bytes } => BusEvent::Refused {
                address,
                bytes: bytes@,
            },
            Transaction::Delay { ms } => BusEvent::Delay { ms },
        }
    }
}

/// The error of a [`RecordingBus`] whose budget is used up.
#[derive(Clone, Copy, Debug, PartialEq, Eq)]
pub struct BusFault;

/// A bus with no device behind it: it records in `log` what it is asked to
/// do.
///
/// A block write succeeds while `log` holds fewer than `budget` entries and
/// fails with [`BusFault`] from then on, so a caller can watch an operation
/// break off at any point.
pub struct RecordingBus {
    /// The transactions so far, oldest first.
    pub log: Vec<Transaction>,
    /// The length of `log` from which block writes fail.
    pub budget: usize,
}

impl RecordingBus {
    /// A bus that accepts every write.
    pub fn new() -> (bus: Self)
        ensures
            bus.log@ == Seq::<Transaction>::empty(),
            bus.trace() == Seq::<BusEvent>::empty(),
            bus.budget == usize::MAX,
    {
        let bus = RecordingBus { log: Vec::new(), budget: usize::MAX };
        bus
    }

    /// A bus whose block writes fail once `budget` transactions are recorded.
    pub fn with_budget(budget: usize) -> (bus: Self)
        ensures
            bus.log@ == Seq::<Transaction>::empty(),
            bus.trace() == Seq::<BusEvent>::empty(),
            bus.budget == budget,
    {
        let bus = RecordingBus { log: Vec::new(), budget };
        bus
    }
}

impl Bus for RecordingBus {
    type Error = BusFault;

    open spec fn trace(&self) -> Seq<BusEvent> {
        self.log@.map_values(|t: Transaction| t@)
    }

    fn write(&mut self, address: u8, bytes: &[u8]) -> (res: Result<(), BusFault>)
        ensures
            res is Ok <==> old(self).log.len() < old(self).budget,
            final(self).budget == old(self).budget,
    {
        if self.log.len() < self.budget {
            let entry = Transaction::Write { address, bytes: slice_to_vec(bytes) };
            self.log.push(entry);
            Ok(())
        } else {
            let entry = Transaction::Refused { address, bytes: slice_to_vec(bytes) };
            self.log.push(entry);
            Err(BusFault)
        }
    }

    fn delay_ms(&mut self, ms: u8)
        ensures
            final(self).budget == old(self).budget,
    {
        self.log.push(Transaction::Delay { ms });
    }
}

} // verus!
