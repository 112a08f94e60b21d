//! The network subsystem the kernel hosts: interface bookkeeping, frame
//! and header codecs, protocol builders, and the packet stack.

use vstd::prelude::*;

pub mod ethernet;
pub mod http;
pub mod protocols;
pub mod stack;
pub mod tcp;

verus! {

/// The life stages of a network interface.
#[derive(Clone, Copy, PartialEq, Eq, Structural, Debug)]
pub enum InterfaceStatus {
    Down,
    Up,
    ConfiguringDHCP,
    Ready,
}

/// One detected network interface: its name, hardware address, optional
/// address assignment and current status.
pub struct NetworkInterface {
    pub name: String,
    pub mac_address: [u8; 6],
    pub ip_address: Option<[u8; 4]>,
    pub status: InterfaceStatus,
}

/// The network subsystem: the detected interfaces, once initialized.
pub struct NetworkSubsystem {
    pub initialized: bool,
    pub interfaces: Vec<NetworkInterface>,
}

impl NetworkSubsystem {
    /// A subsystem that has not scanned for interfaces yet.
    pub fn new() -> (r: Self)
        ensures
            !r.initialized,
            r.interfaces@.len() == 0,
    {
        NetworkSubsystem { initialized: false, interfaces: Vec::new() }
    }

    /// Detect the interfaces and adopt them, marking the subsystem
    /// initialized.
    pub fn initialize(&mut self)
        ensures
            final(self).initialized,
            final(self).interfaces@.len() == 1,
            final(self).interfaces@[0].name@ == "eth0"@,
            final(self).interfaces@[0].mac_address@ =~= seq![
                0x52u8,
                0x55u8,
                0x53u8,
                0x54u8,
                0x41u8,
                0x49u8,
            ],
            final(self).interfaces@[0].ip_address is None,
            final(self).interfaces@[0].status == InterfaceStatus::Down,
    {
        self.interfaces = detect_network_interfaces();
        self.initialized = true;
    }

    /// Whether the subsystem has been initialized.
    pub fn is_initialized(&self) -> (r: bool)
        ensures
            r == self.initialized,
    {
        self.initialized
    }

    /// The detected interfaces.
    pub fn get_interfaces(&self) -> (r: &Vec<NetworkInterface>)
        ensures
            r@ == self.interfaces@,
    {
        &self.interfaces
    }
}

/// The placeholder interface the subsystem reports until real detection
/// exists: one interface, down, with no address.
pub fn detect_network_interfaces() -> (r: Vec<NetworkInterface>)
    ensures
        r@.len() == 1,
        r@[0].name@ == "eth0"@,
        r@[0].mac_address@ =~= seq![0x52u8, 0x55u8, 0x53u8, 0x54u8, 0x41u8, 0x49u8],
        r@[0].ip_address is None,
        r@[0].status == InterfaceStatus::Down,
{
    let mut interfaces: Vec<NetworkInterface> = Vec::new();
    interfaces.push(
        NetworkInterface {
            name: String::from_str("eth0"),
            mac_address: [0x52, 0x55, 0x53, 0x54, 0x41, 0x49],
            ip_address: None,
            status: InterfaceStatus::Down,
        },
    );
    interfaces
}

/// Start the network subsystem: detect interfaces and adopt them.
pub fn init() -> (r: NetworkSubsystem)
    ensures
        r.initialized,
        r.interfaces@.len() == 1,
        r.interfaces@[0].name@ == "eth0"@,
        r.interfaces@[0].status == InterfaceStatus::Down,
{
    let mut subsystem = NetworkSubsystem::new();
    subsystem.initialize();
    subsystem
}

} // verus!
