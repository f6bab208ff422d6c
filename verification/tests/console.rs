use lib::app::{banner, execute, parse_command, run_lua_demo, show_network_event, Command};
use lib::framebuffer::{format_i64, format_u64, Draw, Framebuffer, Ui, BG};
use lib::net::{Event, NetworkStack, Nic};

struct SilentNic {
    sent: Vec<Vec<u8>>,
}

impl Nic for SilentNic {
    fn mac_address(&self) -> [u8; 6] {
        [2, 0, 0, 0, 0, 1]
    }

    fn receive(&mut self, _packet: &mut [u8]) -> Option<usize> {
        None
    }

    fn transmit(&mut self, packet: &[u8]) -> bool {
        self.sent.push(packet.to_vec());
        true
    }
}

fn serial_console() -> Ui {
    Ui::new(Framebuffer::unavailable(), "TEST")
}

fn text(ui: &mut Ui) -> String {
    String::from_utf8(ui.take_serial()).unwrap()
}

fn run(line: &str, network: &mut Option<(SilentNic, NetworkStack)>) -> String {
    let mut ui = serial_console();
    execute(line, &mut ui, network, "x86_64");
    text(&mut ui)
}

#[test]
fn numbers_are_formatted_in_decimal() {
    assert_eq!(format_u64(0), b"0".to_vec());
    assert_eq!(format_u64(42), b"42".to_vec());
    assert_eq!(format_u64(u64::MAX), b"18446744073709551615".to_vec());
    assert_eq!(format_i64(-7), b"-7".to_vec());
    assert_eq!(format_i64(i64::MIN), b"-9223372036854775808".to_vec());
    assert_eq!(format_i64(i64::MAX), b"9223372036854775807".to_vec());
}

#[test]
fn console_writes_to_serial_log() {
    let mut ui = serial_console();
    ui.write("hello ");
    ui.write_number(-12);
    ui.write(" ");
    ui.write_ipv4([10, 0, 2, 15]);
    assert_eq!(text(&mut ui), "hello -12 10.0.2.15");
    assert_eq!(text(&mut ui), "");
}

#[test]
fn banner_reports_devices() {
    let mut ui = serial_console();
    banner(&mut ui, "riscv64", false);
    assert_eq!(
        text(&mut ui),
        "BlueOS 0.1 - Rust + assembly kernel\nArchitecture: riscv64\nGraphics framebuffer: ready\nLua compiler/VM: ready\nEthernet driver: device not found\nType HELP for commands.\n\n> "
    );
    banner(&mut ui, "x86_64", true);
    assert!(text(&mut ui).contains("Ethernet driver: ready (QEMU user network)\n"));
}

#[test]
fn commands_are_trimmed_and_case_insensitive() {
    assert_eq!(parse_command("help"), Command::Help);
    assert_eq!(parse_command("  HeLp \t"), Command::Help);
    assert_eq!(parse_command("INFO"), Command::Info);
    assert_eq!(parse_command("clear"), Command::Clear);
    assert_eq!(parse_command("Lua"), Command::Lua);
    assert_eq!(parse_command("net"), Command::Net);
    assert_eq!(parse_command("dns\n"), Command::Dns);
    assert_eq!(parse_command("   "), Command::Empty);
    assert_eq!(parse_command(""), Command::Empty);
    assert_eq!(parse_command("help me"), Command::Unknown);
    assert_eq!(parse_command("\u{3000}dns\u{2003}"), Command::Dns);
}

#[test]
fn help_info_and_unknown() {
    let mut none: Option<(SilentNic, NetworkStack)> = None;
    assert_eq!(run("HELP", &mut none), "HELP  INFO  CLEAR  LUA  NET  DNS\n> ");
    assert_eq!(
        run("info", &mut none),
        "BlueOS kernel on x86_64. No std, no allocator, identity-mapped hardware.\n> "
    );
    assert_eq!(run("reboot", &mut none), "Unknown command. Type HELP.\n> ");
    assert_eq!(run("", &mut none), "> ");
}

#[test]
fn network_commands_without_adapter() {
    let mut none: Option<(SilentNic, NetworkStack)> = None;
    assert_eq!(run("net", &mut none), "No supported network adapter was found.\n> ");
    assert_eq!(run("dns", &mut none), "Network is unavailable.\n> ");
}

#[test]
fn net_command_reports_and_restarts_arp() {
    let nic = SilentNic { sent: Vec::new() };
    let stack = NetworkStack::new(nic.mac_address());
    let mut network = Some((nic, stack));
    assert_eq!(
        run("net", &mut network),
        "NIC online, IP 10.0.2.15, gateway ARP: waiting, RX=0 TX=0\n> "
    );
    assert_eq!(
        run("NET", &mut network),
        "NIC online, IP 10.0.2.15, gateway ARP: waiting, RX=0 TX=1\n> "
    );
    let (nic, stack) = network.as_ref().unwrap();
    assert_eq!(stack.sent(), 2);
    assert_eq!(nic.sent.len(), 2);
}

#[test]
fn dns_command_resolves_through_gateway() {
    let nic = SilentNic { sent: Vec::new() };
    let stack = NetworkStack::new(nic.mac_address());
    let mut network = Some((nic, stack));
    assert_eq!(run("dns", &mut network), "Resolving example.com through 10.0.2.3...\n> ");
    let (nic, _) = network.as_ref().unwrap();
    assert_eq!(nic.sent.len(), 1);
    assert_eq!(&nic.sent[0][12..14], &[0x08, 0x06]);
}

#[test]
fn clear_shows_its_own_prompt() {
    let mut none: Option<(SilentNic, NetworkStack)> = None;
    assert_eq!(run("clear", &mut none), "BlueOS console cleared\n> ");
}

#[test]
fn lua_command_runs_the_demo() {
    let mut none: Option<(SilentNic, NetworkStack)> = None;
    assert_eq!(
        run("lua", &mut none),
        "Compiling embedded Lua source to bytecode...\n[lua] Lua bytecode VM online\n[lua] 43\n> "
    );
    let mut ui = serial_console();
    run_lua_demo(&mut ui);
    assert_eq!(
        text(&mut ui),
        "Compiling embedded Lua source to bytecode...\n[lua] Lua bytecode VM online\n[lua] 43\n"
    );
}

#[test]
fn network_events_are_reported() {
    let mut ui = serial_console();
    show_network_event(&mut ui, Event::GatewayResolved);
    show_network_event(&mut ui, Event::IcmpEchoRequest([10, 0, 2, 2]));
    show_network_event(&mut ui, Event::IcmpEchoReply([1, 2, 3, 4]));
    show_network_event(&mut ui, Event::DnsAnswer([93, 184, 216, 34]));
    assert_eq!(
        text(&mut ui),
        "\n[net] gateway MAC resolved; DNS query sent\n> \n[net] answered ICMP echo from 10.0.2.2\n> \n[net] ICMP echo reply from 1.2.3.4\n> \n[net] example.com A = 93.184.216.34\n> "
    );
}

#[test]
fn desktop_is_drawn_on_a_framebuffer() {
    let mut ui = Ui::new(Framebuffer::new(0x1000, 800, 600, 3200, 32), "X86_64");
    let draws = ui.framebuffer.take_draws();
    assert_eq!(draws[0], Draw::Fill { x: 0, y: 0, width: 800, height: 600, color: BG });
    assert!(ui.take_dirty());
    assert!(!ui.take_dirty());
    ui.write("A");
    assert!(ui.take_dirty());
    let draws = ui.framebuffer.take_draws();
    assert_eq!(draws.len(), 1);
    assert!(matches!(draws[0], Draw::Glyph { x: 30, y: 142, byte: b'A', scale: 2, .. }));
}

#[test]
fn unavailable_framebuffer_draws_nothing() {
    let mut fb = Framebuffer::unavailable();
    assert!(!fb.available());
    fb.rect(0, 0, 10, 10, 1);
    fb.character(0, 0, b'x', 1, 1);
    fb.label(0, 0, "abc", 1, 1);
    assert!(fb.take_draws().is_empty());
}

#[test]
fn rectangles_are_clipped() {
    let mut fb = Framebuffer::new(0x1000, 200, 150, 800, 32);
    assert!(fb.available());
    fb.rect(190, 140, 50, 50, 7);
    fb.rect(250, 10, 5, 5, 7);
    assert_eq!(fb.take_draws(), vec![Draw::Fill { x: 190, y: 140, width: 10, height: 10, color: 7 }]);
}

#[test]
fn writes_concatenate() {
    let mut one = Ui::new(Framebuffer::new(0x1000, 800, 600, 3200, 32), "X");
    let mut two = Ui::new(Framebuffer::new(0x1000, 800, 600, 3200, 32), "X");
    one.write("ab\ncd");
    two.write("ab\n");
    two.write("cd");
    assert_eq!(one.take_serial(), two.take_serial());
    assert_eq!(one.framebuffer.take_draws(), two.framebuffer.take_draws());
}

#[test]
fn labels_concatenate() {
    let mut one = Framebuffer::new(0x1000, 800, 600, 3200, 32);
    let mut two = Framebuffer::new(0x1000, 800, 600, 3200, 32);
    one.label(10, 20, "abcd", 5, 2);
    two.label(10, 20, "ab", 5, 2);
    two.label(10 + 6 * 2 * 2, 20, "cd", 5, 2);
    let draws = one.take_draws();
    assert_eq!(draws, two.take_draws());
    assert_eq!(draws[2], Draw::Glyph { x: 34, y: 20, byte: b'c', color: 5, scale: 2 });
}

#[test]
fn dirty_flag_follows_writes() {
    let mut ui = Ui::new(Framebuffer::new(0x1000, 800, 600, 3200, 32), "X");
    assert!(ui.take_dirty());
    ui.write("\r");
    assert!(!ui.take_dirty());
    ui.write("\x08");
    assert!(!ui.take_dirty());
    ui.write("\rz");
    assert!(ui.take_dirty());
    ui.write("\x08");
    assert!(ui.take_dirty());
}

#[test]
fn huge_framebuffer_gets_a_terminal() {
    let mut ui = Ui::new(Framebuffer::new(0x1000, usize::MAX, usize::MAX, usize::MAX, 32), "X");
    assert!(ui.take_dirty());
    assert!(!ui.take_dirty());
    ui.write("a");
    assert!(ui.take_dirty());
}
