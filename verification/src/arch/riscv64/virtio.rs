//! The virtio-mmio transport's decisions, and the virtio-gpu and
//! virtio-net requests and buffers.
use vstd::prelude::*;

verus! {

/// "virt" in little-endian ASCII, at offset 0 of every virtio-mmio device.
pub const MAGIC: u32 = 0x7472_6976;

/// Entries in each virtqueue.
pub const QUEUE_SIZE: usize = 16;

pub const STATUS_ACKNOWLEDGE: u32 = 1;

pub const STATUS_DRIVER: u32 = 2;

pub const STATUS_DRIVER_OK: u32 = 4;

pub const STATUS_FEATURES_OK: u32 = 8;

/// The address of the `index`-th virtio-mmio slot of the `virt` machine.
pub open spec fn slot_address(index: int) -> int {
    0x1000_1000 + index * 0x1000
}

/// The `index`-th of the eight virtio-mmio slots.
pub fn slot_base(index: usize) -> (base: usize)
    requires
        index < 8,
    ensures
        base == slot_address(index as int),
{
    0x1000_1000 + index * 0x1000
}

/// A slot holds a modern (version 2) virtio device of kind `wanted`.
pub fn is_device(magic: u32, version: u32, device_id: u32, wanted: u32) -> (found: bool)
    ensures
        found == (magic == MAGIC && version == 2 && device_id == wanted),
{
    magic == MAGIC && version == 2 && device_id == wanted
}

/// The low feature word a device offers, when its high word offers
/// `VIRTIO_F_VERSION_1` (bit 32); none otherwise.
pub fn offered_features(high: u32, low: u32) -> (features: Option<u32>)
    ensures
        features == if high % 2 == 1 {
            Some(low)
        } else {
            None::<u32>
        },
{
    assert(high & 1 == high % 2) by (bit_vector);
    if high & 1 == 0 {
        None
    } else {
        Some(low)
    }
}

/// The only network feature the driver takes: `VIRTIO_NET_F_MAC` (bit 5).
pub fn net_features(offered: u32) -> (features: u32)
    ensures
        features == offered & 0x20u32,
        features != 0 <==> (offered / 32) % 2 == 1,
{
    assert((offered & 0x20u32) != 0 <==> (offered / 32) % 2 == 1) by (bit_vector);
    assert((1u32 << 5u32) == 0x20u32) by (bit_vector);
    offered & (1u32 << 5u32)
}

/// The status that asks the device to accept the negotiated features.
pub fn features_status() -> (status: u32)
    ensures
        status == STATUS_ACKNOWLEDGE + STATUS_DRIVER + STATUS_FEATURES_OK,
{
    assert((1u32 | 2u32 | 8u32) == 11u32) by (bit_vector);
    STATUS_ACKNOWLEDGE | STATUS_DRIVER | STATUS_FEATURES_OK
}

/// The status that marks the driver ready.
pub fn driver_ok_status() -> (status: u32)
    ensures
        status == STATUS_ACKNOWLEDGE + STATUS_DRIVER + STATUS_FEATURES_OK + STATUS_DRIVER_OK,
{
    assert((1u32 | 2u32 | 8u32 | 4u32) == 15u32) by (bit_vector);
    STATUS_ACKNOWLEDGE | STATUS_DRIVER | STATUS_FEATURES_OK | STATUS_DRIVER_OK
}

/// The device kept the features: it echoes `FEATURES_OK` in its status.
pub fn features_accepted(status: u32) -> (accepted: bool)
    ensures
        accepted == ((status / 8) % 2 == 1),
{
    assert((status & 8u32) != 0 <==> (status / 8) % 2 == 1) by (bit_vector);
    status & STATUS_FEATURES_OK != 0
}

/// A queue can be set up when it holds at least `QUEUE_SIZE` entries and
/// is not in use yet.
pub fn queue_usable(maximum: u32, ready: u32) -> (usable: bool)
    ensures
        usable == (maximum >= QUEUE_SIZE && ready == 0),
{
    !((maximum as usize) < QUEUE_SIZE || ready != 0)
}

/// The common header of virtio-gpu requests and responses.
#[derive(PartialEq, Eq, Structural, Debug, Clone, Copy)]
pub struct GpuHeader {
    pub kind: u32,
    pub flags: u32,
    pub fence_id: u64,
    pub context_id: u32,
    pub padding: u32,
}

impl GpuHeader {
    /// The header of a request of `kind`, without fence or context.
    pub fn command(kind: u32) -> (header: Self)
        ensures
            header == (GpuHeader { kind, flags: 0, fence_id: 0, context_id: 0, padding: 0 }),
    {
        Self { kind, flags: 0, fence_id: 0, context_id: 0, padding: 0 }
    }
}

/// A response of the `OK_*` kinds (0x1100-0x1104) means success.
pub fn gpu_response_ok(kind: u32) -> (ok: bool)
    ensures
        ok == (0x1100 <= kind <= 0x1104),
{
    0x1100 <= kind && kind <= 0x1104
}

pub const GPU_WIDTH: usize = 800;

pub const GPU_HEIGHT: usize = 600;

pub const GPU_RESOURCE: u32 = 1;

pub const GPU_FORMAT_B8G8R8X8_UNORM: u32 = 2;

pub const CMD_RESOURCE_CREATE_2D: u32 = 0x0101;

pub const CMD_SET_SCANOUT: u32 = 0x0103;

pub const CMD_RESOURCE_FLUSH: u32 = 0x0104;

pub const CMD_TRANSFER_TO_HOST_2D: u32 = 0x0105;

pub const CMD_RESOURCE_ATTACH_BACKING: u32 = 0x0106;

#[derive(PartialEq, Eq, Structural, Debug, Clone, Copy)]
pub struct Rectangle {
    pub x: u32,
    pub y: u32,
    pub width: u32,
    pub height: u32,
}

#[derive(PartialEq, Eq, Structural, Debug, Clone, Copy)]
pub struct ResourceCreate {
    pub header: GpuHeader,
    pub resource_id: u32,
    pub format: u32,
    pub width: u32,
    pub height: u32,
}

#[derive(PartialEq, Eq, Structural, Debug, Clone, Copy)]
pub struct ResourceAttach {
    pub header: GpuHeader,
    pub resource_id: u32,
    pub entries: u32,
    pub address: u64,
    pub length: u32,
    pub padding: u32,
}

#[derive(PartialEq, Eq, Structural, Debug, Clone, Copy)]
pub struct SetScanout {
    pub header: GpuHeader,
    pub rectangle: Rectangle,
    pub scanout_id: u32,
    pub resource_id: u32,
}

#[derive(PartialEq, Eq, Structural, Debug, Clone, Copy)]
pub struct Transfer {
    pub header: GpuHeader,
    pub rectangle: Rectangle,
    pub offset: u64,
    pub resource_id: u32,
    pub padding: u32,
}

#[derive(PartialEq, Eq, Structural, Debug, Clone, Copy)]
pub struct Flush {
    pub header: GpuHeader,
    pub rectangle: Rectangle,
    pub resource_id: u32,
    pub padding: u32,
}

/// The whole 800x600 screen.
pub open spec fn screen() -> Rectangle {
    Rectangle { x: 0, y: 0, width: 800, height: 600 }
}

fn whole_screen() -> (rectangle: Rectangle)
    ensures
        rectangle == screen(),
{
    Rectangle { x: 0, y: 0, width: GPU_WIDTH as u32, height: GPU_HEIGHT as u32 }
}

/// The virtio-gpu driver's state: the device and the last used-ring index
/// it saw.
pub struct VirtioGpu {
    pub base: usize,
    pub last_used: u16,
}

impl VirtioGpu {
    /// The three requests that create the 800x600 resource backed by the
    /// framebuffer at `framebuffer` and show it on scanout 0.
    pub fn setup_requests(&self, framebuffer: u64) -> (requests: (ResourceCreate, ResourceAttach, SetScanout))
        ensures
            requests.0 == (ResourceCreate {
                header: GpuHeader { kind: CMD_RESOURCE_CREATE_2D, flags: 0, fence_id: 0, context_id: 0, padding: 0 },
                resource_id: GPU_RESOURCE,
                format: GPU_FORMAT_B8G8R8X8_UNORM,
                width: 800,
                height: 600,
            }),
            requests.1 == (ResourceAttach {
                header: GpuHeader { kind: CMD_RESOURCE_ATTACH_BACKING, flags: 0, fence_id: 0, context_id: 0, padding: 0 },
                resource_id: GPU_RESOURCE,
                entries: 1,
                address: framebuffer,
                length: 1_920_000u32,
                padding: 0,
            }),
            requests.2 == (SetScanout {
                header: GpuHeader { kind: CMD_SET_SCANOUT, flags: 0, fence_id: 0, context_id: 0, padding: 0 },
                rectangle: screen(),
                scanout_id: 0,
                resource_id: GPU_RESOURCE,
            }),
    {
        let create = ResourceCreate {
            header: GpuHeader::command(CMD_RESOURCE_CREATE_2D),
            resource_id: GPU_RESOURCE,
            format: GPU_FORMAT_B8G8R8X8_UNORM,
            width: GPU_WIDTH as u32,
            height: GPU_HEIGHT as u32,
        };
        let attach = ResourceAttach {
            header: GpuHeader::command(CMD_RESOURCE_ATTACH_BACKING),
            resource_id: GPU_RESOURCE,
            entries: 1,
            address: framebuffer,
            length: (GPU_WIDTH * GPU_HEIGHT * 4) as u32,
            padding: 0,
        };
        let scanout = SetScanout {
            header: GpuHeader::command(CMD_SET_SCANOUT),
            rectangle: whole_screen(),
            scanout_id: 0,
            resource_id: GPU_RESOURCE,
        };
        (create, attach, scanout)
    }

    /// The two requests that copy the framebuffer to the host and show it.
    pub fn flush(&self) -> (requests: (Transfer, Flush))
        ensures
            requests.0 == (Transfer {
                header: GpuHeader { kind: CMD_TRANSFER_TO_HOST_2D, flags: 0, fence_id: 0, context_id: 0, padding: 0 },
                rectangle: screen(),
                offset: 0,
                resource_id: GPU_RESOURCE,
                padding: 0,
            }),
            requests.1 == (Flush {
                header: GpuHeader { kind: CMD_RESOURCE_FLUSH, flags: 0, fence_id: 0, context_id: 0, padding: 0 },
                rectangle: screen(),
                resource_id: GPU_RESOURCE,
                padding: 0,
            }),
    {
        let transfer = Transfer {
            header: GpuHeader::command(CMD_TRANSFER_TO_HOST_2D),
            rectangle: whole_screen(),
            offset: 0,
            resource_id: GPU_RESOURCE,
            padding: 0,
        };
        let flush = Flush {
            header: GpuHeader::command(CMD_RESOURCE_FLUSH),
            rectangle: whole_screen(),
            resource_id: GPU_RESOURCE,
            padding: 0,
        };
        (transfer, flush)
    }

    /// A request completed when the used index moved; the driver
    /// remembers the new index.
    pub fn completed(&mut self, used: u16) -> (done: bool)
        ensures
            done == (used != old(self).last_used),
            final(self).base == old(self).base,
            final(self).last_used == used,
    {
        let done = used != self.last_used;
        self.last_used = used;
        done
    }
}

/// Bytes of the virtio-net header in front of each frame.
pub const NET_HEADER: usize = 10;

/// Bytes of frame each virtio-net buffer holds.
pub const NET_BUFFER: usize = 2048;

/// Receive buffers on the virtio-net receive queue.
pub const NET_RX_COUNT: usize = 8;

/// The address QEMU gives a virtio-net card without a MAC feature.
pub open spec fn default_net_mac() -> Seq<u8> {
    seq![0x52u8, 0x54, 0x00, 0x12, 0x34, 0x57]
}

/// The virtio-net card's address: read from its configuration space when
/// the MAC feature was negotiated, QEMU's default otherwise.
pub fn net_mac(features: u32, config: [u8; 6]) -> (mac: [u8; 6])
    ensures
        features != 0 ==> mac == config,
        features == 0 ==> mac@ == default_net_mac(),
{
    if features != 0 {
        config
    } else {
        let mac = [0x52u8, 0x54, 0x00, 0x12, 0x34, 0x57];
        assert(mac@ =~= default_net_mac());
        mac
    }
}

/// The virtio-net driver's state.
pub struct VirtioNet {
    pub base: usize,
    pub mac: [u8; 6],
    pub rx_used: u16,
    pub tx_used: u16,
    pub tx_inflight: bool,
}

/// What to do with a used receive-ring element.
#[derive(PartialEq, Eq, Structural, Debug, Clone, Copy)]
pub enum Received {
    /// Nothing arrived.
    Empty,
    /// The element names no buffer of the ring; it is skipped.
    Skipped,
    /// Copy `length` bytes of the frame in buffer `id`, then give the
    /// buffer back to the device.
    Frame { id: usize, length: usize },
}

/// Whether the transmit buffer is free, and what that takes.
#[derive(PartialEq, Eq, Structural, Debug, Clone, Copy)]
pub enum TransmitSlot {
    /// The previous frame is still with the device.
    Busy,
    /// The buffer can be filled.
    Free,
}

impl VirtioNet {
    pub fn new(base: usize, mac: [u8; 6]) -> (net: Self)
        ensures
            net == (VirtioNet { base, mac, rx_used: 0, tx_used: 0, tx_inflight: false }),
    {
        Self { base, mac, rx_used: 0, tx_used: 0, tx_inflight: false }
    }

    /// Looks at the receive queue: `used_index` is the device's used index
    /// and `element` the used element at the driver's position, with
    /// `capacity` bytes to copy into.
    pub fn receive(&mut self, used_index: u16, element: (u32, u32), capacity: usize) -> (what: Received)
        ensures
            used_index == old(self).rx_used ==> what == Received::Empty && *final(self) == *old(self),
            used_index != old(self).rx_used ==> {
                &&& final(self).rx_used == (old(self).rx_used + 1) % 0x10000
                &&& final(self).base == old(self).base
                &&& final(self).mac == old(self).mac
                &&& final(self).tx_used == old(self).tx_used
                &&& final(self).tx_inflight == old(self).tx_inflight
                &&& what == if element.0 >= NET_RX_COUNT {
                    Received::Skipped
                } else {
                    Received::Frame {
                        id: element.0 as usize,
                        length: vstd::math::min(
                            vstd::math::min(
                                if element.1 >= NET_HEADER { element.1 - NET_HEADER } else { 0 },
                                capacity as int,
                            ),
                            NET_BUFFER as int,
                        ) as usize,
                    }
                }
            },
    {
        if used_index == self.rx_used {
            return Received::Empty;
        }
        self.rx_used = self.rx_used.wrapping_add(1);
        let id = element.0 as usize;
        if id >= NET_RX_COUNT {
            return Received::Skipped;
        }
        let mut length = (element.1 as usize).saturating_sub(NET_HEADER);
        if capacity < length {
            length = capacity;
        }
        if NET_BUFFER < length {
            length = NET_BUFFER;
        }
        Received::Frame { id, length }
    }

    /// Whether a frame of `length` bytes can be sent now, given the
    /// device's used index of the transmit queue.
    pub fn transmit_slot(&mut self, length: usize, used_index: u16) -> (slot: TransmitSlot)
        ensures
            slot == if length > NET_BUFFER || (old(self).tx_inflight && used_index == old(self).tx_used) {
                TransmitSlot::Busy
            } else {
                TransmitSlot::Free
            },
            final(self).base == old(self).base,
            final(self).mac == old(self).mac,
            final(self).rx_used == old(self).rx_used,
            slot == TransmitSlot::Free ==> final(self).tx_inflight,
            slot == TransmitSlot::Free && old(self).tx_inflight ==> final(self).tx_used == used_index,
            slot == TransmitSlot::Free && !old(self).tx_inflight ==> final(self).tx_used == old(self).tx_used,
            slot == TransmitSlot::Busy ==> *final(self) == *old(self),
    {
        if length > NET_BUFFER {
            return TransmitSlot::Busy;
        }
        if self.tx_inflight {
            if used_index == self.tx_used {
                return TransmitSlot::Busy;
            }
            self.tx_used = used_index;
        }
        self.tx_inflight = true;
        TransmitSlot::Free
    }
}

} // verus!
