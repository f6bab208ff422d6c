//! BlueOS kernel logic: a line-editing shell, a tiny Lua-style compiler and
//! bytecode VM, an Ethernet/ARP/IPv4/ICMP/UDP/DNS stack, a framebuffer
//! terminal model and the pure decision logic of the platform drivers.
pub mod app;
pub mod arch;
pub mod framebuffer;
pub mod lua;
pub mod net;
pub mod shell;
pub mod text;
pub mod uefi;
pub mod workspace;
