//! The hosted subsystems: network stack and REST server, AI bookkeeping,
//! the computation graph, protocol builders, the console writer, and the
//! exit codes.

use rustai_os::ai;
use rustai_os::ai::autograd::ComputationGraph;
use rustai_os::ai::autograd::Operation;
use rustai_os::ai::ops::matmul;
use rustai_os::ai::tensor::Tensor;
use rustai_os::api::handlers::create_tensor;
use rustai_os::api::handlers::list_models;
use rustai_os::api::handlers::RouteHandler;
use rustai_os::network;
use rustai_os::network::http::Method;
use rustai_os::network::http::Request;
use rustai_os::network::http::StatusCode;
use rustai_os::network::protocols::HttpMethod;
use rustai_os::network::protocols::HttpRequest;
use rustai_os::network::protocols::MqttMessage;
use rustai_os::network::protocols::MqttMessageType;
use rustai_os::network::stack;
use rustai_os::network::stack::NetworkInterface;
use rustai_os::network::stack::NetworkStack;
use rustai_os::network::stack::RestServer;
use rustai_os::network::stack::SocketAddr;
use rustai_os::network::stack::IpAddress;
use rustai_os::network::stack::TcpState;
use rustai_os::qemu::QemuExitCode;
use rustai_os::vga::Color;
use rustai_os::vga::ColorCode;
use rustai_os::vga::Writer;

#[test]
fn network_subsystem_initializes_with_one_interface() {
    let subsystem = network::init();
    assert!(subsystem.is_initialized());
    let interfaces = subsystem.get_interfaces();
    assert_eq!(interfaces.len(), 1);
    assert_eq!(interfaces[0].mac_address, [0x52, 0x55, 0x53, 0x54, 0x41, 0x49]);
    assert!(interfaces[0].ip_address.is_none());
}

#[test]
fn stack_boots_with_a_loopback_interface() {
    let stack = stack::init();
    assert_eq!(stack.interfaces.len(), 1);
    assert_eq!(stack.interfaces[0].name, "lo");
    assert!(matches!(stack.ip_addresses[0], IpAddress::V4([127, 0, 0, 1])));
}

#[test]
fn stack_queues_and_drains_packets() {
    let mut stack = NetworkStack::new();
    let mut nic = NetworkInterface::new("eth0", [1, 2, 3, 4, 5, 6], 1500);
    nic.enqueue_packet(vec![1, 2, 3]);
    assert_eq!(nic.tx_queue.len(), 1);
    stack.add_interface(nic);
    stack.process_packets();
    assert!(stack.interfaces[0].rx_queue.is_empty());
}

#[test]
fn tcp_listener_opens_in_listen_state() {
    let mut stack = NetworkStack::new();
    let addr = SocketAddr { ip: IpAddress::V4([0, 0, 0, 0]), port: 8080 };
    let idx = stack.create_tcp_listener(addr).unwrap();
    assert_eq!(idx, 0);
    assert!(matches!(stack.tcp_connections[0].state, TcpState::Listen));
    assert_eq!(stack.tcp_connections[0].local_addr.port, 8080);
}

fn get(path: &str) -> Request {
    Request { method: Method::Get, path: path.to_string(), headers: Vec::new(), body: Vec::new() }
}

#[test]
fn rest_server_routes_to_the_fixed_handlers() {
    let mut stack = NetworkStack::new();
    let mut server = RestServer::new();
    server.add_route("/api/v1/models", Method::Get, RouteHandler::ListModels);
    server.add_route("/api/v1/tensors", Method::Post, RouteHandler::CreateTensor);
    server.start(&mut stack).unwrap();
    assert!(matches!(stack.tcp_connections[0].state, TcpState::Listen));

    let listed = server.handle_request(&get("/api/v1/models"));
    assert!(matches!(listed.status, StatusCode::OK));
    let missed = server.handle_request(&get("/api/v1/nothing"));
    assert!(matches!(missed.status, StatusCode::NotFound));
    assert!(missed.body.is_empty());
}

#[test]
fn handlers_answer_their_canned_bodies() {
    let request = get("/");
    let models = list_models(&request);
    assert!(matches!(models.status, StatusCode::OK));
    assert_eq!(models.headers[0].0, "Content-Type");
    assert_eq!(models.headers[0].1, "application/json");
    let created = create_tensor(&request);
    assert!(matches!(created.status, StatusCode::Created));
    assert_eq!(created.headers[1].1, "/api/v1/tensors/42");
    assert_eq!(
        created.body,
        b"{\"tensor_id\": 42, \"shape\": [3, 4], \"bytes\": 48}".to_vec()
    );
}

#[test]
fn ai_subsystem_reports_its_resources() {
    let subsystem = ai::init();
    assert!(subsystem.is_initialized());
    assert_eq!(subsystem.tensor_cores_available, 4);
    assert_eq!(subsystem.max_memory_usage, 256 * 1024 * 1024);
}

#[test]
fn tensor_strides_are_row_major() {
    let t = Tensor::new(1, vec![2, 3, 4]);
    assert_eq!(t.strides, vec![12, 4, 1]);
    assert_eq!(t.shape(), &vec![2, 3, 4]);
    let mut t2 = Tensor::zeros(2, vec![5]);
    assert_eq!(t2.strides, vec![1]);
    assert!(!t2.requires_grad);
    t2.set_requires_grad(true);
    assert!(t2.requires_grad);
}

#[test]
fn matmul_produces_the_outer_shape() {
    let a = Tensor::new(1, vec![3, 4]);
    let b = Tensor::new(2, vec![4, 5]);
    let c = matmul(&a, &b);
    assert_eq!(c.shape, vec![3, 5]);
}

#[test]
fn graph_orders_nodes_after_their_operands() {
    let mut graph = ComputationGraph::new();
    let a = graph.add_node(Operation::Add, vec![]);
    let b = graph.add_node(Operation::Mul, vec![a]);
    let c = graph.add_node(Operation::Add, vec![a, b]);
    let d = graph.add_node(Operation::Sum, vec![c]);
    let order = graph.topological_sort();
    assert_eq!(order.len(), 4);
    let pos = |x: usize| order.iter().position(|&v| v == x).unwrap();
    assert!(pos(a) < pos(b));
    assert!(pos(a) < pos(c));
    assert!(pos(b) < pos(c));
    assert!(pos(c) < pos(d));
    // The backward pass walks the same order without running off the graph.
    graph.backward(d);
}

#[test]
fn graph_issues_fresh_tensor_identities() {
    let mut graph = ComputationGraph::new();
    let a = graph.add_node(Operation::Add, vec![]);
    let b = graph.add_node(Operation::ReLU, vec![a]);
    assert_eq!(graph.nodes[a].output, 1);
    assert_eq!(graph.nodes[b].output, 2);
    assert_eq!(graph.nodes[b].inputs, vec![a]);
}

#[test]
fn http_request_renders_its_text_form() {
    let mut request = HttpRequest::new(HttpMethod::POST, "/api/v1/inference");
    request.add_header("Host", "kernel.local");
    request.add_header("Content-Type", "application/json");
    request.set_body(b"{\"input\":[1,2]}".to_vec());
    assert_eq!(
        request.to_string(),
        "POST /api/v1/inference HTTP/1.1\r\nHost: kernel.local\r\nContent-Type: application/json\r\n\r\n{\"input\":[1,2]}"
    );
}

#[test]
fn http_request_skips_a_non_text_body() {
    let mut request = HttpRequest::new(HttpMethod::GET, "/");
    request.set_body(vec![0xff, 0xfe]);
    assert_eq!(request.to_string(), "GET / HTTP/1.1\r\n\r\n");
}

#[test]
fn mqtt_messages_carry_their_fields() {
    let publish = MqttMessage::new_publish("sensors/temp", vec![1, 2], 1, true);
    assert!(matches!(publish.message_type, MqttMessageType::PUBLISH));
    assert_eq!(publish.topic.as_deref(), Some("sensors/temp"));
    assert_eq!(publish.payload, Some(vec![1, 2]));
    assert_eq!(publish.qos, 1);
    assert!(publish.retain);
    let subscribe = MqttMessage::new_subscribe("sensors/#", 0);
    assert!(matches!(subscribe.message_type, MqttMessageType::SUBSCRIBE));
    assert!(subscribe.payload.is_none());
    assert!(!subscribe.retain);
}

#[test]
fn writer_scrolls_on_line_feed() {
    let colors = ColorCode::new(Color::LightGreen, Color::Black);
    let mut writer = Writer::new(colors);
    writer.write_string("ab\n");
    // After the line feed the text sits one row above the bottom.
    let row = &writer.buffer[24 - 1];
    assert_eq!(row[0].ascii_character, b'a');
    assert_eq!(row[1].ascii_character, b'b');
    assert_eq!(writer.column_position, 0);
    // The bottom row is blank again.
    assert_eq!(writer.buffer[24][0].ascii_character, b' ');
}

#[test]
fn writer_replaces_unprintable_bytes() {
    let colors = ColorCode::new(Color::White, Color::Red);
    assert_eq!(colors.code, 4 * 16 + 15);
    let mut writer = Writer::new(colors);
    writer.write_string("\u{263a}");
    let replaced = writer.buffer[24][0].ascii_character;
    assert_eq!(replaced, 0xfe);
}

#[test]
fn qemu_exit_codes() {
    assert_eq!(QemuExitCode::Success.code(), 0x10);
    assert_eq!(QemuExitCode::Failed.code(), 0x11);
}
