//! The UEFI data records that the firmware hands over by value, and the
//! status-code convention.
use vstd::prelude::*;

verus! {

/// A UEFI status code.
pub type Status = usize;

/// A logical block address.
pub type Lba = u64;

/// A physical memory address.
pub type PhysicalAddress = u64;

pub const SUCCESS: Status = 0;

pub const BY_PROTOCOL: u32 = 2;

pub const LOADER_DATA: u32 = 2;

/// The smallest error status: only the top bit set.
pub open spec fn error_bit() -> int {
    usize::MAX as int / 2 + 1
}

/// `NOT_READY`: the top bit and 6.
pub fn not_ready() -> (status: Status)
    ensures
        status == error_bit() + 6,
{
    usize::MAX / 2 + 1 + 6
}

/// `BUFFER_TOO_SMALL`: the top bit and 5.
pub fn buffer_too_small() -> (status: Status)
    ensures
        status == error_bit() + 5,
{
    usize::MAX / 2 + 1 + 5
}

/// A status is an error when its top bit is set.
pub fn is_error(status: Status) -> (error: bool)
    ensures
        error == (status >= error_bit()),
{
    status > usize::MAX / 2
}

/// A protocol's globally unique identifier.
#[derive(Clone, Copy)]
pub struct Guid {
    pub data1: u32,
    pub data2: u16,
    pub data3: u16,
    pub data4: [u8; 8],
}

pub struct TableHeader {
    pub signature: u64,
    pub revision: u32,
    pub header_size: u32,
    pub crc32: u32,
    pub reserved: u32,
}

/// A key stroke: a firmware scan code or a UCS-2 character.
#[derive(Clone, Copy)]
pub struct InputKey {
    pub scan_code: u16,
    pub unicode_char: u16,
}

#[derive(Clone, Copy)]
pub struct Time {
    pub year: u16,
    pub month: u8,
    pub day: u8,
    pub hour: u8,
    pub minute: u8,
    pub second: u8,
    pub pad1: u8,
    pub nanosecond: u32,
    pub time_zone: i16,
    pub daylight: u8,
    pub pad2: u8,
}

/// A graphics mode as the Graphics Output Protocol describes it.
#[derive(Clone, Copy)]
pub struct GopModeInfo {
    pub version: u32,
    pub horizontal_resolution: u32,
    pub vertical_resolution: u32,
    pub pixel_format: u32,
    pub pixel_information: [u32; 4],
    pub pixels_per_scan_line: u32,
}

/// One reading of a pointing device.
#[derive(Clone, Copy)]
pub struct SimplePointerState {
    pub relative_movement_x: i32,
    pub relative_movement_y: i32,
    pub relative_movement_z: i32,
    pub left_button: u8,
    pub right_button: u8,
}

#[derive(Clone, Copy)]
pub struct MacAddress {
    pub address: [u8; 32],
}

pub struct SimpleNetworkMode {
    pub state: u32,
    pub hardware_address_size: u32,
    pub media_header_size: u32,
    pub max_packet_size: u32,
    pub nvram_size: u32,
    pub nvram_access_size: u32,
    pub receive_filter_mask: u32,
    pub receive_filter_setting: u32,
    pub max_mcast_filter_count: u32,
    pub mcast_filter_count: u32,
    pub mcast_filter: [MacAddress; 16],
    pub current_address: MacAddress,
    pub broadcast_address: MacAddress,
    pub permanent_address: MacAddress,
    pub if_type: u8,
    pub mac_address_changeable: u8,
    pub multiple_tx_supported: u8,
    pub media_present_supported: u8,
    pub media_present: u8,
}

/// The medium behind a Block I/O protocol.
#[derive(Clone, Copy)]
pub struct BlockMedia {
    pub media_id: u32,
    pub removable_media: u8,
    pub media_present: u8,
    pub logical_partition: u8,
    pub read_only: u8,
    pub write_caching: u8,
    pub block_size: u32,
    pub io_align: u32,
    pub last_block: Lba,
    pub lowest_aligned_lba: Lba,
    pub logical_blocks_per_physical_block: u32,
    pub optimal_transfer_length_granularity: u32,
}

} // verus!
