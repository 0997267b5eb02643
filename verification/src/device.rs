//! Device layer: identities, capabilities, and text output built on the
//! write-one-byte capability.

use vstd::prelude::*;
use vstd::string::StringSliceAdditionalSpecFns;
use core::ops::DerefMut;

verus! {

/// Device kind.
#[derive(Clone, Copy, Debug, PartialEq, Eq, Structural)]
pub enum DeviceKind {
    BlockDevice,
    CharsDevice,
}

/// What a device's identity record says.
pub struct Identity {
    pub id: nat,
    pub name: Seq<char>,
    pub kind: DeviceKind,
}

/// Identity of a device. It does not change once made.
#[derive(Clone, Copy, Debug)]
pub struct DeviceInfo<'a> {
    id: usize,
    name: &'a str,
    kind: DeviceKind,
}

impl<'a> View for DeviceInfo<'a> {
    type V = Identity;

    closed spec fn view(&self) -> Identity {
        Identity { id: self.id as nat, name: self.name@, kind: self.kind }
    }
}

/// Hands out device identifiers, each once, counting up from zero.
pub struct DeviceManager {
    next_id: usize,
}

impl View for DeviceManager {
    type V = nat;

    /// The identifier that the next device gets.
    closed spec fn view(&self) -> nat {
        self.next_id as nat
    }
}

/// The lock of the `spin` crate, `spin::Mutex`. Nothing inside it is visible
/// here.
#[verifier::external_type_specification]
#[verifier::external_body]
#[verifier::reject_recursive_types(T)]
#[verifier::reject_recursive_types(R)]
pub struct ExMutex<T: ?Sized, R>(spin::mutex::Mutex<T, R>);

/// The guard of a held `spin::Mutex`, `spin::MutexGuard`.
#[verifier::external_type_specification]
#[verifier::external_body]
#[verifier::reject_recursive_types(T)]
#[verifier::reject_recursive_types(R)]
pub struct ExMutexGuard<'a, T: 'a + ?Sized, R>(spin::mutex::MutexGuard<'a, T, R>);

/// The way a `spin::Mutex` waits, `spin::relax::Spin`.
#[verifier::external_type_specification]
#[verifier::external_body]
pub struct ExSpin(spin::relax::Spin);

/// `spin::Mutex::lock`: spins until the lock is free, takes it, and returns
/// the guard that holds it. Nothing is claimed of the value behind the lock:
/// it is whatever the last holder left.
#[verifier::external_body]
fn lock_manager<'a>(counter: &'a spin::Mutex<DeviceManager>) -> (guard: spin::MutexGuard<
    'a,
    DeviceManager,
>) {
    counter.lock()
}

/// `DerefMut::deref_mut` of `spin::MutexGuard`: the value behind the lock,
/// for as long as the guard is borrowed. Nothing is claimed of it.
#[verifier::external_body]
fn locked_manager<'a, 'b>(guard: &'a mut spin::MutexGuard<'b, DeviceManager>) -> (manager:
    &'a mut DeviceManager) {
    guard.deref_mut()
}

/// Taking an identifier from a manager whose next one is `next`: the
/// identifier taken, and the manager's next one afterwards.
pub open spec fn issue(next: nat) -> (nat, nat) {
    (next, next + 1)
}

/// The identifiers that `k` devices get, in the order they are made, from a
/// manager whose next identifier is `next`.
pub open spec fn issued(next: nat, k: nat) -> Seq<nat>
    decreases k,
{
    if k == 0 {
        Seq::empty()
    } else {
        seq![issue(next).0] + issued(issue(next).1, (k - 1) as nat)
    }
}

/// The identifiers of `k` devices made one after the other are the `k`
/// numbers from the manager's next identifier on: from a new manager, every
/// number below `k` once, with no gap and no repeat.
pub proof fn lemma_issued_ids(next: nat, k: nat)
    ensures
        issued(next, k).len() == k,
        forall|i: int| 0 <= i < k ==> #[trigger] issued(next, k)[i] == next + i,
        forall|i: int, j: int| 0 <= i < j < k ==> issued(next, k)[i] != issued(next, k)[j],
    decreases k,
{
    if k > 0 {
        lemma_issued_ids(next + 1, (k - 1) as nat);
        let rest = issued(next + 1, (k - 1) as nat);
        assert forall|i: int| 0 <= i < k implies #[trigger] issued(next, k)[i] == next + i by {
            if i > 0 {
                assert(issued(next, k)[i] == rest[i - 1]);
            }
        }
    }
}

impl DeviceManager {
    /// A manager that has handed out nothing yet.
    pub fn new() -> (m: DeviceManager)
        ensures
            m@ == 0,
    {
        DeviceManager { next_id: 0 }
    }

    /// The identifier that the next device gets.
    pub fn peek(&self) -> (id: usize)
        ensures
            id == self@,
    {
        self.next_id
    }

    /// Takes the next identifier.
    pub fn take(&mut self) -> (id: usize)
        requires
            old(self)@ < usize::MAX,
        ensures
            id == issue(old(self)@).0,
            final(self)@ == issue(old(self)@).1,
    {
        let id: usize = self.next_id;
        self.next_id += 1;
        id
    }

    /// Takes the next identifier, if one is left: the last value of the
    /// counter is never handed out, and a manager that has reached it stays
    /// as it is.
    pub fn try_take(&mut self) -> (r: Option<usize>)
        ensures
            old(self)@ < usize::MAX ==> r == Some(issue(old(self)@).0 as usize) && final(self)@
                == issue(old(self)@).1,
            old(self)@ >= usize::MAX ==> r is None && final(self)@ == old(self)@,
    {
        if self.peek() < usize::MAX {
            Some(self.take())
        } else {
            None
        }
    }
}

impl<'a> DeviceInfo<'a> {
    /// Makes the identity of a new device, with the next identifier of
    /// `manager`.
    pub fn new(kind: DeviceKind, name: &'a str, manager: &mut DeviceManager) -> (info: DeviceInfo<
        'a,
    >)
        requires
            old(manager)@ < usize::MAX,
        ensures
            info@ == (Identity { id: issue(old(manager)@).0, name: name@, kind }),
            final(manager)@ == issue(old(manager)@).1,
    {
        DeviceInfo { id: manager.take(), name, kind }
    }

    /// Makes the identity of a new device, with the next identifier of a
    /// counter that is shared behind a lock. `None` where the counter has run
    /// out.
    pub fn new_shared(kind: DeviceKind, name: &'a str, counter: &spin::Mutex<DeviceManager>) -> (r:
        Option<DeviceInfo<'a>>)
        ensures
            r matches Some(info) ==> info@.name == name@ && info@.kind == kind && info@.id
                < usize::MAX,
    {
        let mut guard = lock_manager(counter);
        let manager = locked_manager(&mut guard);
        DeviceInfo::try_new(kind, name, manager)
    }

    /// Makes the identity of a new device with the next identifier of
    /// `manager`, if one is left; where none is, the manager stays as it is.
    pub fn try_new(kind: DeviceKind, name: &'a str, manager: &mut DeviceManager) -> (r: Option<
        DeviceInfo<'a>,
    >)
        ensures
            old(manager)@ < usize::MAX ==> final(manager)@ == issue(old(manager)@).1 && (r matches Some(
                info,
            ) && info@ == (Identity { id: issue(old(manager)@).0, name: name@, kind })),
            old(manager)@ >= usize::MAX ==> r is None && final(manager)@ == old(manager)@,
    {
        match manager.try_take() {
            Some(id) => Some(DeviceInfo { id, name, kind }),
            None => None,
        }
    }

    /// Takes the next identifier from a counter that is shared behind a lock.
    /// The lock is held from the read of the counter to its write, so no two
    /// callers get the same identifier. `None` where the counter has run out.
    pub fn get_next_id_safe(counter: &spin::Mutex<DeviceManager>) -> (r: Option<usize>)
        ensures
            r matches Some(id) ==> id < usize::MAX,
    {
        let mut guard = lock_manager(counter);
        let manager = locked_manager(&mut guard);
        manager.try_take()
    }

    /// The identifier.
    pub fn id(&self) -> (id: usize)
        ensures
            id == self@.id,
    {
        self.id
    }

    /// The name.
    pub fn name(&self) -> (name: &'a str)
        ensures
            name@ == self@.name,
    {
        self.name
    }

    /// The kind.
    pub fn kind(&self) -> (kind: DeviceKind)
        ensures
            kind == self@.kind,
    {
        self.kind
    }
}

/// Provides read functionality for devices.
pub trait DeviceRead {
    fn read_byte(&self, dev: &DeviceInfo) -> u8;

    fn read_chunk(&self, dev: &DeviceInfo, buf: &[u8], size: usize);
}

/// Provides write functionality for devices: one byte at a time.
pub trait DeviceWrite {
    /// What the device is, as far as writing goes.
    type State;

    /// The device's present state.
    spec fn state(&self) -> Self::State;

    /// The device is in order and can take a byte.
    spec fn wf(&self) -> bool;

    /// The state that writing `b` leads to.
    spec fn step(s: Self::State, b: u8) -> Self::State;

    /// Writes one byte to the device.
    fn write_byte(&mut self, dev: &DeviceInfo, b: u8)
        requires
            old(self).wf(),
        ensures
            final(self).wf(),
            final(self).state() == Self::step(old(self).state(), b),
    ;
}

/// Provides ioctl functionality for devices.
pub trait DeviceIoctl {
    fn ioctl(&self, dev: &DeviceInfo, arg1: i32, arg2: i32, arg3: i32);
}

/// The state of a device after `bytes` were written to it, first to last.
pub open spec fn steps<P: DeviceWrite>(s: P::State, bytes: Seq<u8>) -> P::State
    decreases bytes.len(),
{
    if bytes.len() == 0 {
        s
    } else {
        P::step(steps::<P>(s, bytes.drop_last()), bytes.last())
    }
}

/// A device: what drives it, and its identity.
pub struct Device<'a, P> {
    pub proto: P,
    pub info: DeviceInfo<'a>,
}

impl<'a, P> Device<'a, P> {
    /// Makes a device around `proto`, with the next identifier of `manager`.
    pub fn new(proto: P, kind: DeviceKind, name: &'a str, manager: &mut DeviceManager) -> (d: Device<
        'a,
        P,
    >)
        requires
            old(manager)@ < usize::MAX,
        ensures
            d.proto == proto,
            d.info@ == (Identity { id: issue(old(manager)@).0, name: name@, kind }),
            final(manager)@ == issue(old(manager)@).1,
    {
        Device { proto, info: DeviceInfo::new(kind, name, manager) }
    }

    /// Makes a device around `proto`, with the next identifier of a counter
    /// that is shared behind a lock. `None` where the counter has run out.
    pub fn new_shared(
        proto: P,
        kind: DeviceKind,
        name: &'a str,
        counter: &spin::Mutex<DeviceManager>,
    ) -> (r: Option<Device<'a, P>>)
        ensures
            r matches Some(d) ==> d.proto == proto && d.info@.name == name@ && d.info@.kind == kind
                && d.info@.id < usize::MAX,
    {
        let mut guard = lock_manager(counter);
        let manager = locked_manager(&mut guard);
        Device::try_new(proto, kind, name, manager)
    }

    /// Makes a device around `proto` with the next identifier of `manager`, if
    /// one is left; where none is, the manager stays as it is.
    pub fn try_new(proto: P, kind: DeviceKind, name: &'a str, manager: &mut DeviceManager) -> (r:
        Option<Device<'a, P>>)
        ensures
            old(manager)@ < usize::MAX ==> final(manager)@ == issue(old(manager)@).1 && (r matches Some(
                d,
            ) && d.proto == proto && d.info@ == (Identity {
                id: issue(old(manager)@).0,
                name: name@,
                kind,
            })),
            old(manager)@ >= usize::MAX ==> r is None && final(manager)@ == old(manager)@,
    {
        match DeviceInfo::try_new(kind, name, manager) {
            Some(info) => Some(Device { proto, info }),
            None => None,
        }
    }

    /// What drives the device.
    pub fn deref(&self) -> (p: &P)
        ensures
            *p == self.proto,
    {
        &self.proto
    }
}

impl<'a, P: DeviceWrite> Device<'a, P> {
    /// Writes the bytes of `string` to the device, one call of `write_byte`
    /// for each, first to last.
    pub fn write_str(&mut self, string: &str)
        requires
            old(self).proto.wf(),
        ensures
            final(self).proto.wf(),
            final(self).proto.state() == steps::<P>(old(self).proto.state(), string.spec_bytes()),
            final(self).info == old(self).info,
    {
        let info: DeviceInfo = self.info;
        let bytes = string.as_bytes();
        let mut i: usize = 0;
        while i < bytes.len()
            invariant
                i <= bytes@.len(),
                self.proto.wf(),
                self.info == old(self).info,
                self.proto.state() == steps::<P>(old(self).proto.state(), bytes@.take(i as int)),
            decreases bytes@.len() - i,
        {
            assert(bytes@.take(i + 1).drop_last() =~= bytes@.take(i as int));
            self.proto.write_byte(&info, bytes[i]);
            i += 1;
        }
        assert(bytes@.take(i as int) =~= bytes@);
    }
}

} // verus!
