//! Starting a virtio device: the steps in their order.
//!
//! Each step of the start takes what the device's registers say and returns what to write
//! to them. The type of a value says which step comes next.

use std::marker::PhantomData;
use vstd::prelude::*;

verus! {

/// What a virtio device's magic register holds.
pub const VIRTIO_MMIO_MAGIC_VALUE: u32 = 0x7472_6976;

/// Status: the device was noticed.
pub const STATUS_ACKNOWLEDGE: u32 = 1;

/// Status: there is a driver for the device.
pub const STATUS_DRIVER: u32 = 2;

/// Status: the driver is ready.
pub const STATUS_DRIVER_OK: u32 = 4;

/// Status: the features are agreed on.
pub const STATUS_FEATURES_OK: u32 = 8;

/// Status: the driver gave up.
pub const STATUS_FAILED: u32 = 128;

/// Why a virtio device could not be started.
#[derive(Clone, Copy, Debug, PartialEq, Eq, Structural)]
pub enum VirtioInitError {
    NotVirtio { magic: u32 },
    UnsupportedVersion(u32),
    UnsupportedFeatures { wanted: u64, offered: u64 },
    DeviceRejectedFeatures,
    QueueUnavailable { index: u16 },
    BackingAllocFailed { pages: u64 },
}

/// The device was reset.
pub struct Reset;

/// The device was acknowledged.
pub struct Acknowledged;

/// The device knows that it has a driver.
pub struct DriverSelected;

/// The features that the driver wants were written.
pub struct FeaturesWritten;

/// The device accepted the features.
pub struct FeaturesAccepted;

/// At least one queue is set up.
pub struct QueuesReady;

/// A start that is under way. One that is further on comes only from the step before.
pub struct VirtioTransportInit<S> {
    regs_va: u64,
    state: PhantomData<S>,
}

impl<S> VirtioTransportInit<S> {
    /// Where the device's registers are.
    pub closed spec fn regs(&self) -> u64 {
        self.regs_va
    }
}

/// A device that was started. It comes only from the last step of a start.
#[derive(Clone, Copy, Debug, PartialEq, Eq, Structural)]
pub struct VirtioTransport {
    regs_va: u64,
}

impl VirtioTransport {
    /// The started device whose registers are at `regs_va`.
    pub closed spec fn started(regs_va: u64) -> VirtioTransport {
        VirtioTransport { regs_va }
    }

    /// Where the device's registers are.
    pub closed spec fn regs(&self) -> u64 {
        self.regs_va
    }

    /// The registers of a started device are where they were said to be.
    pub proof fn lemma_started(regs_va: u64)
        ensures
            VirtioTransport::started(regs_va).regs() == regs_va,
    {
    }

    /// Where the device's registers are.
    pub fn regs_va(&self) -> (r: u64)
        ensures
            r == self.regs(),
    {
        self.regs_va
    }
}

/// A value to write to the status register.
#[derive(Clone, Copy, Debug, PartialEq, Eq, Structural)]
pub struct StatusWrite(pub u32);

/// Values to write to the registers of the queue that was selected, in this order.
#[derive(Clone, Copy, Debug, PartialEq, Eq, Structural)]
pub struct QueueWrites {
    pub num: u32,
    pub desc: u64,
    pub driver: u64,
    pub device: u64,
    pub ready: u32,
}

impl VirtioTransportInit<Reset> {
    /// Resets a device, given its magic and its version register. Only a device that is
    /// one, and of the version that is known, is reset.
    pub fn reset(regs_va: u64, magic: u32, version: u32) -> (r: Result<
        (VirtioTransportInit<Reset>, StatusWrite),
        VirtioInitError,
    >)
        ensures
            if magic != VIRTIO_MMIO_MAGIC_VALUE {
                r matches Err(e) && e == (VirtioInitError::NotVirtio { magic })
            } else if version != 2 {
                r matches Err(e) && e == VirtioInitError::UnsupportedVersion(version)
            } else {
                r matches Ok(ok) && ok.0.regs() == regs_va && ok.1 == StatusWrite(0)
            },
    {
        if magic != VIRTIO_MMIO_MAGIC_VALUE {
            return Err(VirtioInitError::NotVirtio { magic });
        }
        if version != 2 {
            return Err(VirtioInitError::UnsupportedVersion(version));
        }
        Ok((VirtioTransportInit { regs_va, state: PhantomData }, StatusWrite(0)))
    }

    /// Tells the device that it was noticed.
    pub fn acknowledge(self) -> (r: (VirtioTransportInit<Acknowledged>, StatusWrite))
        ensures
            r.0.regs() == self.regs(),
            r.1 == StatusWrite(STATUS_ACKNOWLEDGE),
    {
        (
            VirtioTransportInit { regs_va: self.regs_va, state: PhantomData },
            StatusWrite(STATUS_ACKNOWLEDGE),
        )
    }
}

impl VirtioTransportInit<Acknowledged> {
    /// Tells the device that it has a driver.
    pub fn driver(self) -> (r: (VirtioTransportInit<DriverSelected>, StatusWrite))
        ensures
            r.0.regs() == self.regs(),
            r.1 == StatusWrite(STATUS_ACKNOWLEDGE | STATUS_DRIVER),
    {
        (
            VirtioTransportInit { regs_va: self.regs_va, state: PhantomData },
            StatusWrite(STATUS_ACKNOWLEDGE | STATUS_DRIVER),
        )
    }
}

impl VirtioTransportInit<DriverSelected> {
    /// Chooses the features, given those that the device offers: all that are wanted, or
    /// none. The second part of the result is what to write as the driver's features.
    pub fn negotiate(self, offered: u64, wanted: u64) -> (r: Result<
        (VirtioTransportInit<FeaturesWritten>, u64),
        VirtioInitError,
    >)
        ensures
            if wanted & !offered != 0 {
                r matches Err(e) && e == (VirtioInitError::UnsupportedFeatures {
                    wanted,
                    offered,
                })
            } else {
                r matches Ok(ok) && ok.0.regs() == self.regs() && ok.1 == wanted
            },
    {
        if wanted & !offered != 0 {
            return Err(VirtioInitError::UnsupportedFeatures { wanted, offered });
        }
        Ok((VirtioTransportInit { regs_va: self.regs_va, state: PhantomData }, wanted))
    }
}

impl VirtioTransportInit<FeaturesWritten> {
    /// What to write to the status register to have the features accepted, given what it
    /// holds.
    pub fn propose(&self, status: u32) -> (r: StatusWrite)
        ensures
            r == StatusWrite(status | STATUS_FEATURES_OK),
    {
        StatusWrite(status | STATUS_FEATURES_OK)
    }

    /// Whether the device accepted the features, given what its status register holds now.
    /// Where it did not, the error comes with what to write to that register.
    pub fn features_ok(self, status: u32) -> (r: Result<
        VirtioTransportInit<FeaturesAccepted>,
        (VirtioInitError, StatusWrite),
    >)
        ensures
            if status & STATUS_FEATURES_OK == STATUS_FEATURES_OK {
                r matches Ok(ok) && ok.regs() == self.regs()
            } else {
                r matches Err(e) && e == (
                    VirtioInitError::DeviceRejectedFeatures,
                    StatusWrite(STATUS_FAILED),
                )
            },
    {
        if status & STATUS_FEATURES_OK == STATUS_FEATURES_OK {
            Ok(VirtioTransportInit { regs_va: self.regs_va, state: PhantomData })
        } else {
            Err((VirtioInitError::DeviceRejectedFeatures, StatusWrite(STATUS_FAILED)))
        }
    }
}

/// The largest queue that can be made, given what the device says of the queue that was
/// selected.
pub fn queue_limit(index: u16, queue_num_max: u32) -> (r: Result<u16, VirtioInitError>)
    ensures
        if queue_num_max == 0 {
            r == Err::<u16, VirtioInitError>(VirtioInitError::QueueUnavailable { index })
        } else {
            r == Ok::<u16, VirtioInitError>(
                if queue_num_max > u16::MAX {
                    u16::MAX
                } else {
                    queue_num_max as u16
                },
            )
        },
{
    if queue_num_max == 0 {
        return Err(VirtioInitError::QueueUnavailable { index });
    }
    if queue_num_max > u16::MAX as u32 {
        Ok(u16::MAX)
    } else {
        Ok(queue_num_max as u16)
    }
}

/// What to write to the registers of a queue.
pub fn queue_writes(size: u16, desc: u64, avail: u64, used: u64) -> (r: QueueWrites)
    ensures
        r == (QueueWrites { num: size as u32, desc, driver: avail, device: used, ready: 1 }),
{
    QueueWrites { num: size as u32, desc, driver: avail, device: used, ready: 1 }
}

impl VirtioTransportInit<FeaturesAccepted> {
    /// Goes on once the first queue was set up.
    pub fn setup_queue(self, size: u16, desc: u64, avail: u64, used: u64) -> (r: (
        VirtioTransportInit<QueuesReady>,
        QueueWrites,
    ))
        ensures
            r.0.regs() == self.regs(),
            r.1 == (QueueWrites { num: size as u32, desc, driver: avail, device: used, ready: 1 }),
    {
        (
            VirtioTransportInit { regs_va: self.regs_va, state: PhantomData },
            queue_writes(size, desc, avail, used),
        )
    }
}

impl VirtioTransportInit<QueuesReady> {
    /// Goes on once another queue was set up.
    pub fn setup_additional_queue(self, size: u16, desc: u64, avail: u64, used: u64) -> (r: (
        VirtioTransportInit<QueuesReady>,
        QueueWrites,
    ))
        ensures
            r.0.regs() == self.regs(),
            r.1 == (QueueWrites { num: size as u32, desc, driver: avail, device: used, ready: 1 }),
    {
        (self, queue_writes(size, desc, avail, used))
    }

    /// Tells the device that the driver is ready.
    pub fn driver_ok(self) -> (r: (VirtioTransport, StatusWrite))
        ensures
            r.0 == VirtioTransport::started(self.regs()),
            r.0.regs() == self.regs(),
            r.1 == StatusWrite(
                STATUS_ACKNOWLEDGE | STATUS_DRIVER | STATUS_FEATURES_OK | STATUS_DRIVER_OK,
            ),
    {
        (
            VirtioTransport { regs_va: self.regs_va },
            StatusWrite(
                STATUS_ACKNOWLEDGE | STATUS_DRIVER | STATUS_FEATURES_OK | STATUS_DRIVER_OK,
            ),
        )
    }
}

/// Features that were chosen are all among those that the device offers.
pub proof fn lemma_features_subset(wanted: u64, offered: u64)
    ensures
        wanted & !offered == 0 <==> wanted & offered == wanted,
{
    assert(wanted & !offered == 0 <==> wanted & offered == wanted) by (bit_vector);
}

/// The bits that a started device's status register shows.
pub proof fn lemma_final_status()
    ensures
        (STATUS_ACKNOWLEDGE | STATUS_DRIVER | STATUS_FEATURES_OK | STATUS_DRIVER_OK) == 15,
{
    assert((1u32 | 2u32 | 8u32 | 4u32) == 15) by (bit_vector);
}

} // verus!
