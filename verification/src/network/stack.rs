//! The packet stack: interfaces with their queues, address assignments, a
//! routing table, TCP connection slots, and the REST server routed over
//! it. Dispatch is a closed table: each route names one of the fixed
//! handlers.

use vstd::prelude::*;
use crate::api::handlers::RouteHandler;
use crate::api::handlers::response_matches;
use crate::network::http::Method;
use crate::network::http::Request;
use crate::network::http::Response;
use crate::network::http::StatusCode;

verus! {

/// An address of either family.
#[derive(Clone, Copy, Debug)]
pub enum IpAddress {
    V4([u8; 4]),
    V6([u8; 16]),
}

/// A network with its prefix length.
#[derive(Clone, Copy, Debug)]
pub struct IpNetwork {
    pub address: IpAddress,
    pub prefix_len: u8,
}

/// One routing decision: where packets for a destination network leave.
#[derive(Clone, Copy, Debug)]
pub struct RouteEntry {
    pub destination: IpNetwork,
    pub gateway: Option<IpAddress>,
    pub interface: usize,
    pub metric: u32,
}

/// The ordered routing decisions.
pub struct RoutingTable {
    pub entries: Vec<RouteEntry>,
}

/// A raw packet waiting on an interface queue.
pub struct Packet {
    pub data: Vec<u8>,
    pub interface_index: usize,
}

/// One hardware interface with its transmit and receive queues.
pub struct NetworkInterface {
    pub name: &'static str,
    pub mac_address: [u8; 6],
    pub mtu: u16,
    pub tx_queue: Vec<Packet>,
    pub rx_queue: Vec<Packet>,
}

/// An address and port pair.
#[derive(Clone, Copy, Debug)]
pub struct SocketAddr {
    pub ip: IpAddress,
    pub port: u16,
}

/// The TCP connection states.
#[derive(Clone, Copy, PartialEq, Eq, Structural, Debug)]
pub enum TcpState {
    Closed,
    Listen,
    SynReceived,
    SynSent,
    Established,
    FinWait1,
    FinWait2,
    CloseWait,
    Closing,
    LastAck,
    TimeWait,
}

/// One TCP connection slot.
pub struct TcpConnection {
    pub local_addr: SocketAddr,
    pub remote_addr: SocketAddr,
    pub state: TcpState,
    pub rx_buffer: Vec<u8>,
    pub tx_buffer: Vec<u8>,
}

/// The stack itself: interfaces, assigned addresses, routes, connections.
pub struct NetworkStack {
    pub interfaces: Vec<NetworkInterface>,
    pub ip_addresses: Vec<IpAddress>,
    pub routing_table: RoutingTable,
    pub tcp_connections: Vec<TcpConnection>,
}

impl NetworkStack {
    /// An empty stack: no interface, no address, no route, no connection.
    pub fn new() -> (r: Self)
        ensures
            r.interfaces@.len() == 0,
            r.ip_addresses@.len() == 0,
            r.routing_table.entries@.len() == 0,
            r.tcp_connections@.len() == 0,
    {
        NetworkStack {
            interfaces: Vec::new(),
            ip_addresses: Vec::new(),
            routing_table: RoutingTable { entries: Vec::new() },
            tcp_connections: Vec::new(),
        }
    }

    /// Register an interface and return its index: the list grows by
    /// exactly that interface at its end.
    pub fn add_interface(&mut self, interface: NetworkInterface) -> (r: usize)
        ensures
            r == old(self).interfaces@.len(),
            final(self).interfaces@ == old(self).interfaces@.push(interface),
            final(self).ip_addresses@ == old(self).ip_addresses@,
            final(self).tcp_connections@ == old(self).tcp_connections@,
            final(self).routing_table.entries@ == old(self).routing_table.entries@,
    {
        let idx = self.interfaces.len();
        self.interfaces.push(interface);
        idx
    }

    /// Record an address assignment for an interface.
    pub fn assign_ip(&mut self, interface_idx: usize, ip: IpAddress)
        ensures
            final(self).ip_addresses@ == old(self).ip_addresses@.push(ip),
            final(self).interfaces@ == old(self).interfaces@,
            final(self).tcp_connections@ == old(self).tcp_connections@,
            final(self).routing_table.entries@ == old(self).routing_table.entries@,
    {
        self.ip_addresses.push(ip);
    }

    /// Drain every interface's receive queue, handing each packet to the
    /// protocol dispatch; the queues end empty and nothing else moves.
    pub fn process_packets(&mut self)
        ensures
            final(self).interfaces@.len() == old(self).interfaces@.len(),
            forall|k: int|
                0 <= k < final(self).interfaces@.len() ==> (
                #[trigger] final(self).interfaces@[k]).rx_queue@.len() == 0,
            forall|k: int|
                0 <= k < final(self).interfaces@.len() ==> (
                #[trigger] final(self).interfaces@[k]).tx_queue@ == old(
                    self,
                ).interfaces@[k].tx_queue@ && final(self).interfaces@[k].name@ == old(
                    self,
                ).interfaces@[k].name@ && final(self).interfaces@[k].mtu == old(
                    self,
                ).interfaces@[k].mtu,
            final(self).ip_addresses@ == old(self).ip_addresses@,
            final(self).tcp_connections@ == old(self).tcp_connections@,
            final(self).routing_table.entries@ == old(self).routing_table.entries@,
    {
        let mut i: usize = 0;
        let n = self.interfaces.len();
        while i < n
            invariant
                i <= n,
                n == self.interfaces@.len(),
                forall|k: int|
                    0 <= k < i ==> (#[trigger] self.interfaces@[k]).rx_queue@.len() == 0,
                forall|k: int|
                    0 <= k < n ==> (#[trigger] self.interfaces@[k]).tx_queue@ == old(
                        self,
                    ).interfaces@[k].tx_queue@ && self.interfaces@[k].name@ == old(
                        self,
                    ).interfaces@[k].name@ && self.interfaces@[k].mtu == old(
                        self,
                    ).interfaces@[k].mtu,
                self.ip_addresses@ == old(self).ip_addresses@,
                self.tcp_connections@ == old(self).tcp_connections@,
                self.routing_table.entries@ == old(self).routing_table.entries@,
            decreases n - i,
        {
            loop
                invariant
                    i < self.interfaces@.len(),
                    n == self.interfaces@.len(),
                    forall|k: int|
                        0 <= k < i ==> (#[trigger] self.interfaces@[k]).rx_queue@.len() == 0,
                    forall|k: int|
                        0 <= k < n ==> (#[trigger] self.interfaces@[k]).tx_queue@ == old(
                            self,
                        ).interfaces@[k].tx_queue@ && self.interfaces@[k].name@ == old(
                            self,
                        ).interfaces@[k].name@ && self.interfaces@[k].mtu == old(
                            self,
                        ).interfaces@[k].mtu,
                    self.ip_addresses@ == old(self).ip_addresses@,
                    self.tcp_connections@ == old(self).tcp_connections@,
                    self.routing_table.entries@ == old(self).routing_table.entries@,
                ensures
                    i < self.interfaces@.len(),
                    n == self.interfaces@.len(),
                    self.interfaces@[i as int].rx_queue@.len() == 0,
                    forall|k: int|
                        0 <= k < i ==> (#[trigger] self.interfaces@[k]).rx_queue@.len() == 0,
                    forall|k: int|
                        0 <= k < n ==> (#[trigger] self.interfaces@[k]).tx_queue@ == old(
                            self,
                        ).interfaces@[k].tx_queue@ && self.interfaces@[k].name@ == old(
                            self,
                        ).interfaces@[k].name@ && self.interfaces@[k].mtu == old(
                            self,
                        ).interfaces@[k].mtu,
                    self.ip_addresses@ == old(self).ip_addresses@,
                    self.tcp_connections@ == old(self).tcp_connections@,
                    self.routing_table.entries@ == old(self).routing_table.entries@,
                decreases self.interfaces@[i as int].rx_queue@.len(),
            {
                let packet = self.interfaces[i].rx_queue.pop();
                match packet {
                    Some(p) => {
                        self.handle_packet(p);
                    },
                    None => {
                        break ;
                    },
                }
            }
            i = i + 1;
        }
    }

    /// Protocol dispatch for one received packet; nothing is decoded yet.
    fn handle_packet(&mut self, packet: Packet)
        ensures
            final(self).interfaces@ == old(self).interfaces@,
            final(self).ip_addresses@ == old(self).ip_addresses@,
            final(self).tcp_connections@ == old(self).tcp_connections@,
            final(self).routing_table.entries@ == old(self).routing_table.entries@,
    {
    }

    /// Open a listening TCP slot on the given local address and return its
    /// index: exactly one slot is appended, listening there, its remote
    /// side unspecified and its buffers empty; nothing else moves.
    pub fn create_tcp_listener(&mut self, addr: SocketAddr) -> (r: Result<usize, &'static str>)
        ensures
            r matches Ok(idx) && idx == old(self).tcp_connections@.len(),
            final(self).tcp_connections@.len() == old(self).tcp_connections@.len() + 1,
            forall|k: int|
                0 <= k < old(self).tcp_connections@.len()
                    ==> #[trigger] final(self).tcp_connections@[k] == old(self).tcp_connections@[k],
            ({
                let slot = final(self).tcp_connections@[old(self).tcp_connections@.len() as int];
                &&& slot.state == TcpState::Listen
                &&& slot.local_addr == addr
                &&& slot.remote_addr == (SocketAddr {
                    ip: IpAddress::V4([0u8, 0u8, 0u8, 0u8]),
                    port: 0u16,
                })
                &&& slot.rx_buffer@.len() == 0
                &&& slot.tx_buffer@.len() == 0
            }),
            final(self).interfaces@ == old(self).interfaces@,
            final(self).ip_addresses@ == old(self).ip_addresses@,
            final(self).routing_table.entries@ == old(self).routing_table.entries@,
    {
        let conn_idx = self.tcp_connections.len();
        self.tcp_connections.push(
            TcpConnection {
                local_addr: addr,
                remote_addr: SocketAddr { ip: IpAddress::V4([0, 0, 0, 0]), port: 0 },
                state: TcpState::Listen,
                rx_buffer: Vec::new(),
                tx_buffer: Vec::new(),
            },
        );
        Ok(conn_idx)
    }
}

impl NetworkInterface {
    /// An interface with empty queues.
    pub fn new(name: &'static str, mac_address: [u8; 6], mtu: u16) -> (r: Self)
        ensures
            r.name@ == name@,
            r.mac_address@ == mac_address@,
            r.mtu == mtu,
            r.tx_queue@.len() == 0,
            r.rx_queue@.len() == 0,
    {
        NetworkInterface { name, mac_address, mtu, tx_queue: Vec::new(), rx_queue: Vec::new() }
    }

    /// Queue raw bytes for transmission, under index zero until the stack
    /// processes the queue; earlier packets and the interface's own fields
    /// stay put.
    pub fn enqueue_packet(&mut self, data: Vec<u8>)
        ensures
            final(self).tx_queue@.len() == old(self).tx_queue@.len() + 1,
            forall|k: int|
                0 <= k < old(self).tx_queue@.len()
                    ==> #[trigger] final(self).tx_queue@[k] == old(self).tx_queue@[k],
            final(self).tx_queue@[old(self).tx_queue@.len() as int].data@ == data@,
            final(self).tx_queue@[old(self).tx_queue@.len() as int].interface_index == 0,
            final(self).rx_queue@ == old(self).rx_queue@,
            final(self).name@ == old(self).name@,
            final(self).mac_address@ == old(self).mac_address@,
            final(self).mtu == old(self).mtu,
    {
        self.tx_queue.push(Packet { data, interface_index: 0 });
    }
}

/// Boot the stack: one loopback interface with its address assigned.
pub fn init() -> (r: NetworkStack)
    ensures
        r.interfaces@.len() == 1,
        r.ip_addresses@.len() == 1,
        r.ip_addresses@[0] == IpAddress::V4([127u8, 0u8, 0u8, 1u8]),
{
    let mut stack = NetworkStack::new();
    let loopback = NetworkInterface::new("lo", [0, 0, 0, 0, 0, 0], 65535);
    let lo_idx = stack.add_interface(loopback);
    stack.assign_ip(lo_idx, IpAddress::V4([127, 0, 0, 1]));
    stack
}

/// One route of the REST server: a path, a method, and the fixed handler
/// dispatched to.
pub struct Route {
    pub path: String,
    pub method: Method,
    pub handler: RouteHandler,
}

/// The REST server routed over the stack.
pub struct RestServer {
    pub routes: Vec<Route>,
    pub port: u16,
}

/// Index of the first route matching a path and method, if any.
pub open spec fn first_route(routes: Seq<Route>, path: Seq<char>, method: Method) -> Option<int>
    decreases routes.len(),
{
    if routes.len() == 0 {
        None
    } else if routes[0].path@ == path && routes[0].method == method {
        Some(0)
    } else {
        match first_route(routes.drop_first(), path, method) {
            Some(i) => Some(i + 1),
            None => None,
        }
    }
}

impl RestServer {
    /// A server with no routes, on the conventional port.
    pub fn new() -> (r: Self)
        ensures
            r.routes@.len() == 0,
            r.port == 8080,
    {
        RestServer { routes: Vec::new(), port: 8080 }
    }

    /// Append a route to the table; earlier routes keep priority.
    pub fn add_route(&mut self, path: &str, method: Method, handler: RouteHandler)
        ensures
            final(self).routes@.len() == old(self).routes@.len() + 1,
            final(self).routes@[old(self).routes@.len() as int].path@ == path@,
            final(self).routes@[old(self).routes@.len() as int].method == method,
            final(self).routes@[old(self).routes@.len() as int].handler == handler,
            forall|k: int|
                0 <= k < old(self).routes@.len() ==> final(self).routes@[k] == old(self).routes@[k],
            final(self).port == old(self).port,
    {
        self.routes.push(Route { path: String::from_str(path), method, handler });
    }

    /// Start listening: open a TCP listener on every interface at the
    /// server's port.
    pub fn start(&self, network: &mut NetworkStack) -> (r: Result<(), &'static str>)
        ensures
            r is Ok,
            final(network).tcp_connections@.len() == old(network).tcp_connections@.len() + 1,
            final(network).tcp_connections@[old(network).tcp_connections@.len() as int].state
                == TcpState::Listen,
    {
        let addr = SocketAddr { ip: IpAddress::V4([0, 0, 0, 0]), port: self.port };
        match network.create_tcp_listener(addr) {
            Ok(_) => Ok(()),
            Err(e) => Err(e),
        }
    }

    /// Route a request: the first route whose path and method match gets
    /// it; with no match the answer is an empty not-found response.
    pub fn handle_request(&self, request: &Request) -> (r: Response)
        ensures
            match first_route(self.routes@, request.path@, request.method) {
                Some(i) => response_matches(self.routes@[i].handler, r),
                None => r.status == StatusCode::NotFound && r.headers@.len() == 0 && r.body@.len()
                    == 0,
            },
    {
        let ghost routes0 = self.routes@;
        let mut i: usize = 0;
        while i < self.routes.len()
            invariant
                i <= routes0.len(),
                self.routes@ == routes0,
                forall|k: int|
                    0 <= k < i ==> !((#[trigger] routes0[k]).path@ == request.path@ && routes0[k].method
                        == request.method),
            decreases routes0.len() - i,
        {
            let route = &self.routes[i];
            if route.path.eq(&request.path) && method_eq(route.method, request.method) {
                proof {
                    lemma_first_route_found(routes0, request.path@, request.method, i as int);
                }
                return crate::api::handlers::dispatch(route.handler, request);
            }
            i = i + 1;
        }
        proof {
            lemma_first_route_none(routes0, request.path@, request.method);
        }
        Response { status: StatusCode::NotFound, headers: Vec::new(), body: Vec::new() }
    }
}

/// Method equality, spelled out so contracts can speak of it.
pub fn method_eq(a: Method, b: Method) -> (r: bool)
    ensures
        r == (a == b),
{
    match (a, b) {
        (Method::Get, Method::Get) => true,
        (Method::Post, Method::Post) => true,
        (Method::Put, Method::Put) => true,
        (Method::Delete, Method::Delete) => true,
        _ => false,
    }
}

proof fn lemma_first_route_found(routes: Seq<Route>, path: Seq<char>, method: Method, i: int)
    requires
        0 <= i < routes.len(),
        routes[i].path@ == path && routes[i].method == method,
        forall|k: int| 0 <= k < i ==> !((#[trigger] routes[k]).path@ == path && routes[k].method == method),
    ensures
        first_route(routes, path, method) == Some(i),
    decreases i,
{
    if i == 0 {
    } else {
        assert forall|k: int| 0 <= k < i - 1 implies !((#[trigger] routes.drop_first()[k]).path@
            == path && routes.drop_first()[k].method == method) by {
            assert(routes.drop_first()[k] == routes[k + 1]);
        }
        assert(routes.drop_first()[i - 1] == routes[i]);
        lemma_first_route_found(routes.drop_first(), path, method, i - 1);
    }
}

proof fn lemma_first_route_none(routes: Seq<Route>, path: Seq<char>, method: Method)
    requires
        forall|k: int|
            0 <= k < routes.len() ==> !((#[trigger] routes[k]).path@ == path && routes[k].method
                == method),
    ensures
        first_route(routes, path, method) is None,
    decreases routes.len(),
{
    if routes.len() > 0 {
        assert forall|k: int| 0 <= k < routes.drop_first().len() implies !((
        #[trigger] routes.drop_first()[k]).path@ == path && routes.drop_first()[k].method
            == method) by {
            assert(routes.drop_first()[k] == routes[k + 1]);
        }
        lemma_first_route_none(routes.drop_first(), path, method);
    }
}

} // verus!
