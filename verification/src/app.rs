//! The kernel's console application: the banner, the shell commands, the
//! Lua demo and the reports of network events.
use vstd::prelude::*;
use vstd::string::StringSliceAdditionalSpecFns;
use crate::framebuffer::{ipv4_text, signed_decimal, ui_wf, ui_write, lemma_ui_write_concat, write_more, Ui, UiView, ui_clear_area};
use crate::lua::{compile, printed_all, Output, DEMO};
use crate::lua::compiler::spec_compile;
use crate::lua::vm::{spec_run, Printed, Run};
use crate::net::{device_frames, handed_once, lemma_device_nothing, Event, NetView, NetworkStack, Nic};
use crate::net::frames::{local_ip, spec_arp_request, spec_dns_query};

verus! {

/// The start-up banner.
pub open spec fn banner_text(architecture: Seq<u8>, nic_found: bool) -> Seq<u8> {
    "BlueOS 0.1 - Rust + assembly kernel\n".spec_bytes() + "Architecture: ".spec_bytes()
        + architecture + "\nGraphics framebuffer: ready\n".spec_bytes()
        + "Lua compiler/VM: ready\n".spec_bytes() + if nic_found {
        "Ethernet driver: ready (QEMU user network)\n".spec_bytes()
    } else {
        "Ethernet driver: device not found\n".spec_bytes()
    } + "Type HELP for commands.\n\n> ".spec_bytes()
}

/// Writes the start-up banner.
pub fn banner(ui: &mut Ui, architecture: &str, nic_found: bool)
    requires
        ui_wf(old(ui)@),
    ensures
        final(ui)@ == ui_write(old(ui)@, banner_text(architecture.spec_bytes(), nic_found)),
        ui_wf(final(ui)@),
{
    let ghost start = ui@;
    assert(ui@ == ui_write(start, Seq::empty())) by {
        assert(start.serial + Seq::<u8>::empty() =~= start.serial);
    }
    write_more(ui, "BlueOS 0.1 - Rust + assembly kernel\n", Ghost(start), Ghost(Seq::empty()));
    let ghost w = Seq::<u8>::empty() + "BlueOS 0.1 - Rust + assembly kernel\n".spec_bytes();
    write_more(ui, "Architecture: ", Ghost(start), Ghost(w));
    let ghost w = w + "Architecture: ".spec_bytes();
    write_more(ui, architecture, Ghost(start), Ghost(w));
    let ghost w = w + architecture.spec_bytes();
    write_more(ui, "\nGraphics framebuffer: ready\n", Ghost(start), Ghost(w));
    let ghost w = w + "\nGraphics framebuffer: ready\n".spec_bytes();
    write_more(ui, "Lua compiler/VM: ready\n", Ghost(start), Ghost(w));
    let ghost w = w + "Lua compiler/VM: ready\n".spec_bytes();
    if nic_found {
        write_more(ui, "Ethernet driver: ready (QEMU user network)\n", Ghost(start), Ghost(w));
        let ghost w2 = w + "Ethernet driver: ready (QEMU user network)\n".spec_bytes();
        write_more(ui, "Type HELP for commands.\n\n> ", Ghost(start), Ghost(w2));
        assert(w2 + "Type HELP for commands.\n\n> ".spec_bytes() =~= banner_text(
            architecture.spec_bytes(),
            nic_found,
        ));
    } else {
        write_more(ui, "Ethernet driver: device not found\n", Ghost(start), Ghost(w));
        let ghost w2 = w + "Ethernet driver: device not found\n".spec_bytes();
        write_more(ui, "Type HELP for commands.\n\n> ", Ghost(start), Ghost(w2));
        assert(w2 + "Type HELP for commands.\n\n> ".spec_bytes() =~= banner_text(
            architecture.spec_bytes(),
            nic_found,
        ));
    }
}

/// A command of the shell.
#[derive(PartialEq, Eq, Structural, Debug, Clone, Copy)]
pub enum Command {
    Help,
    Info,
    Clear,
    Lua,
    Net,
    Dns,
    /// A blank line.
    Empty,
    Unknown,
}

/// Unicode's `White_Space` characters, which `str::trim` removes.
pub open spec fn is_white_space(c: char) -> bool {
    let v = c as u32;
    ||| 0x09 <= v <= 0x0d
    ||| v == 0x20 || v == 0x85 || v == 0xa0 || v == 0x1680
    ||| 0x2000 <= v <= 0x200a
    ||| v == 0x2028 || v == 0x2029 || v == 0x202f || v == 0x205f || v == 0x3000
}

/// The first position at or after `i` that is not white space, or the end.
pub open spec fn content_start(s: Seq<char>, i: int) -> int
    decreases s.len() - i,
{
    if i < 0 || i >= s.len() || !is_white_space(s[i]) {
        i
    } else {
        content_start(s, i + 1)
    }
}

/// The position after the last character before `j` and at or after `low`
/// that is not white space, or `low`.
pub open spec fn content_end(s: Seq<char>, j: int, low: int) -> int
    decreases j - low,
{
    if j <= low || j > s.len() || !is_white_space(s[j - 1]) {
        j
    } else {
        content_end(s, j - 1, low)
    }
}

/// `s` without leading and trailing white space.
pub open spec fn trimmed(s: Seq<char>) -> Seq<char> {
    let start = content_start(s, 0);
    s.subrange(start, content_end(s, s.len() as int, start))
}

/// `c` with ASCII upper-case letters made lower-case, as a code point.
pub open spec fn ascii_lower(c: char) -> u32 {
    let v = c as u32;
    if 0x41 <= v <= 0x5a {
        (v + 0x20) as u32
    } else {
        v
    }
}

/// `s` equals the lower-case ASCII `word` when ASCII case is ignored.
pub open spec fn same_ignoring_case(s: Seq<char>, word: Seq<u8>) -> bool {
    &&& s.len() == word.len()
    &&& forall|i: int| 0 <= i < s.len() ==> ascii_lower(#[trigger] s[i]) == word[i] as u32
}

pub open spec fn word_help() -> Seq<u8> {
    seq![0x68u8, 0x65, 0x6c, 0x70]
}

pub open spec fn word_info() -> Seq<u8> {
    seq![0x69u8, 0x6e, 0x66, 0x6f]
}

pub open spec fn word_clear() -> Seq<u8> {
    seq![0x63u8, 0x6c, 0x65, 0x61, 0x72]
}

pub open spec fn word_lua() -> Seq<u8> {
    seq![0x6cu8, 0x75, 0x61]
}

pub open spec fn word_net() -> Seq<u8> {
    seq![0x6eu8, 0x65, 0x74]
}

pub open spec fn word_dns() -> Seq<u8> {
    seq![0x64u8, 0x6e, 0x73]
}

/// The command that a typed line names: its words are matched without
/// regard to ASCII case, after trimming white space.
pub open spec fn spec_command(line: Seq<char>) -> Command {
    let t = trimmed(line);
    if same_ignoring_case(t, word_help()) {
        Command::Help
    } else if same_ignoring_case(t, word_info()) {
        Command::Info
    } else if same_ignoring_case(t, word_clear()) {
        Command::Clear
    } else if same_ignoring_case(t, word_lua()) {
        Command::Lua
    } else if same_ignoring_case(t, word_net()) {
        Command::Net
    } else if same_ignoring_case(t, word_dns()) {
        Command::Dns
    } else if t.len() == 0 {
        Command::Empty
    } else {
        Command::Unknown
    }
}

proof fn lemma_start_after_prefix(c: char, s: Seq<char>, i: int)
    requires
        0 <= i <= s.len(),
    ensures
        content_start(seq![c] + s, i + 1) == content_start(s, i) + 1,
    decreases s.len() - i,
{
    let t = seq![c] + s;
    if i < s.len() {
        assert(t[i + 1] == s[i]);
        lemma_start_after_prefix(c, s, i + 1);
    }
}

proof fn lemma_end_after_prefix(c: char, s: Seq<char>, j: int, low: int)
    requires
        0 <= low <= j <= s.len(),
    ensures
        content_end(seq![c] + s, j + 1, low + 1) == content_end(s, j, low) + 1,
    decreases j - low,
{
    let t = seq![c] + s;
    if j > low {
        assert(t[j] == s[j - 1]);
        lemma_end_after_prefix(c, s, j - 1, low);
    }
}

proof fn lemma_start_before_suffix(s: Seq<char>, c: char, i: int)
    requires
        0 <= i <= s.len(),
        is_white_space(c),
    ensures
        content_start(s, i) < s.len() ==> content_start(s + seq![c], i) == content_start(s, i),
        content_start(s, i) >= s.len() ==> content_start(s + seq![c], i) == s.len() + 1,
    decreases s.len() + 1 - i,
{
    let t = s + seq![c];
    if i < s.len() {
        assert(t[i] == s[i]);
        lemma_start_before_suffix(s, c, i + 1);
    } else {
        assert(t[i] == c);
        assert(content_start(t, i + 1) == i + 1);
    }
}

proof fn lemma_end_before_suffix(s: Seq<char>, c: char, j: int, low: int)
    requires
        0 <= low <= j <= s.len(),
    ensures
        content_end(s + seq![c], j, low) == content_end(s, j, low),
    decreases j - low,
{
    let t = s + seq![c];
    if j > low {
        assert(t[j - 1] == s[j - 1]);
        lemma_end_before_suffix(s, c, j - 1, low);
    }
}

/// Spaces, tabs, carriage returns and line feeds before or after a line
/// do not change what it says.
pub proof fn lemma_trim_ignores_blanks(line: Seq<char>, c: char)
    requires
        c == ' ' || c == '\t' || c == '\r' || c == '\n',
    ensures
        trimmed(seq![c] + line) == trimmed(line),
        trimmed(line + seq![c]) == trimmed(line),
{
    let n = line.len() as int;
    let start = content_start(line, 0);
    let end = content_end(line, n, start);
    assert(is_white_space(c));
    let a = seq![c] + line;
    assert(content_start(a, 0) == content_start(a, 1));
    lemma_start_after_prefix(c, line, 0);
    lemma_content_bounds(line, 0);
    lemma_content_end_bounds(line, n, start);
    lemma_end_after_prefix(c, line, n, start);
    assert(a.subrange(start + 1, end + 1) =~= line.subrange(start, end));
    let b = line + seq![c];
    lemma_start_before_suffix(line, c, 0);
    if start < n {
        assert(b[n] == c);
        assert(content_end(b, n + 1, start) == content_end(b, n, start));
        lemma_end_before_suffix(line, c, n, start);
        assert(b.subrange(start, end) =~= line.subrange(start, end));
    } else {
        assert(trimmed(b).len() == 0);
        assert(line.subrange(start, end).len() == 0);
        assert(trimmed(b) =~= trimmed(line));
    }
}

proof fn lemma_content_end_bounds(s: Seq<char>, j: int, low: int)
    requires
        0 <= low <= j <= s.len(),
    ensures
        low <= content_end(s, j, low) <= j,
    decreases j - low,
{
    if j > low {
        lemma_content_end_bounds(s, j - 1, low);
    }
}

/// Where trimming starts and ends lie within the line.
proof fn lemma_content_bounds(s: Seq<char>, i: int)
    requires
        0 <= i <= s.len(),
    ensures
        i <= content_start(s, i) <= s.len(),
    decreases s.len() - i,
{
    if i < s.len() {
        lemma_content_bounds(s, i + 1);
    }
}

/// The commands are the words help, info, clear, lua, net and dns, in any
/// mix of upper and lower case, with white space around them ignored; a
/// line of white space only is empty.
pub proof fn lemma_command_words(line: Seq<char>)
    ensures
        ({
            let t = trimmed(line);
            t.len() == 4 && ascii_lower(t[0]) == 0x68 && ascii_lower(t[1]) == 0x65 && ascii_lower(t[2]) == 0x6c && ascii_lower(t[3]) == 0x70
        }) ==> spec_command(line) == Command::Help,
        ({
            let t = trimmed(line);
            t.len() == 4 && ascii_lower(t[0]) == 0x69 && ascii_lower(t[1]) == 0x6e && ascii_lower(t[2]) == 0x66 && ascii_lower(t[3]) == 0x6f
        }) ==> spec_command(line) == Command::Info,
        ({
            let t = trimmed(line);
            t.len() == 5 && ascii_lower(t[0]) == 0x63 && ascii_lower(t[1]) == 0x6c && ascii_lower(t[2]) == 0x65 && ascii_lower(t[3]) == 0x61 && ascii_lower(t[4]) == 0x72
        }) ==> spec_command(line) == Command::Clear,
        ({
            let t = trimmed(line);
            t.len() == 3 && ascii_lower(t[0]) == 0x6c && ascii_lower(t[1]) == 0x75 && ascii_lower(t[2]) == 0x61
        }) ==> spec_command(line) == Command::Lua,
        ({
            let t = trimmed(line);
            t.len() == 3 && ascii_lower(t[0]) == 0x6e && ascii_lower(t[1]) == 0x65 && ascii_lower(t[2]) == 0x74
        }) ==> spec_command(line) == Command::Net,
        ({
            let t = trimmed(line);
            t.len() == 3 && ascii_lower(t[0]) == 0x64 && ascii_lower(t[1]) == 0x6e && ascii_lower(t[2]) == 0x73
        }) ==> spec_command(line) == Command::Dns,
        trimmed(line).len() == 0 ==> spec_command(line) == Command::Empty,
{
    let t = trimmed(line);
    if t.len() > 0 {
        assert(ascii_lower(t[0]) == t[0] as u32 || ascii_lower(t[0]) == t[0] as u32 + 0x20);
    }
}

fn is_white_space_char(c: char) -> (white: bool)
    ensures
        white == is_white_space(c),
{
    let v = c as u32;
    (0x09 <= v && v <= 0x0d) || v == 0x20 || v == 0x85 || v == 0xa0 || v == 0x1680 || (0x2000
        <= v && v <= 0x200a) || v == 0x2028 || v == 0x2029 || v == 0x202f || v == 0x205f || v
        == 0x3000
}

/// Whether the characters `start..end` of `line` spell `word` ignoring ASCII case.
fn spells_ignoring_case(line: &str, start: usize, end: usize, word: &[u8]) -> (same: bool)
    requires
        start <= end <= line@.len(),
    ensures
        same == same_ignoring_case(line@.subrange(start as int, end as int), word@),
{
    let ghost t = line@.subrange(start as int, end as int);
    if end - start != word.len() {
        return false;
    }
    let mut index: usize = 0;
    while index < word.len()
        invariant
            start <= end <= line@.len(),
            end - start == word@.len(),
            t == line@.subrange(start as int, end as int),
            index <= word@.len(),
            forall|i: int| 0 <= i < index ==> ascii_lower(#[trigger] t[i]) == word@[i] as u32,
        decreases word@.len() - index,
    {
        let c = line.get_char(start + index);
        let mut v = c as u32;
        if 0x41 <= v && v <= 0x5a {
            v = v + 0x20;
        }
        assert(t[index as int] == c);
        if v != word[index] as u32 {
            return false;
        }
        index = index + 1;
    }
    true
}

/// The command that `line` names.
pub fn parse_command(line: &str) -> (command: Command)
    ensures
        command == spec_command(line@),
{
    let length = line.unicode_len();
    let mut start: usize = 0;
    while start < length && is_white_space_char(line.get_char(start))
        invariant
            length == line@.len(),
            start <= length,
            content_start(line@, 0) == content_start(line@, start as int),
        decreases length - start,
    {
        start = start + 1;
    }
    let mut end: usize = length;
    while end > start && is_white_space_char(line.get_char(end - 1))
        invariant
            length == line@.len(),
            start <= end <= length,
            content_end(line@, length as int, start as int) == content_end(
                line@,
                end as int,
                start as int,
            ),
        decreases end - start,
    {
        end = end - 1;
    }
    assert(trimmed(line@) == line@.subrange(start as int, end as int));
    if spells_ignoring_case(line, start, end, &[0x68u8, 0x65, 0x6c, 0x70]) {
        Command::Help
    } else if spells_ignoring_case(line, start, end, &[0x69u8, 0x6e, 0x66, 0x6f]) {
        Command::Info
    } else if spells_ignoring_case(line, start, end, &[0x63u8, 0x6c, 0x65, 0x61, 0x72]) {
        Command::Clear
    } else if spells_ignoring_case(line, start, end, &[0x6cu8, 0x75, 0x61]) {
        Command::Lua
    } else if spells_ignoring_case(line, start, end, &[0x6eu8, 0x65, 0x74]) {
        Command::Net
    } else if spells_ignoring_case(line, start, end, &[0x64u8, 0x6e, 0x73]) {
        Command::Dns
    } else if start == end {
        Command::Empty
    } else {
        Command::Unknown
    }
}

/// The line the console shows for one value printed by a Lua program.
pub open spec fn printed_line(p: Printed) -> Seq<u8> {
    "[lua] ".spec_bytes() + match p {
        Printed::Integer(v) => signed_decimal(v as int),
        Printed::Text(bytes) => bytes,
    } + "\n".spec_bytes()
}

/// The lines the console shows for what a Lua program printed.
pub open spec fn printed_text(printed: Seq<Printed>) -> Seq<u8>
    decreases printed.len(),
{
    if printed.len() == 0 {
        Seq::empty()
    } else {
        printed_text(printed.drop_last()) + printed_line(printed.last())
    }
}

/// What the Lua demo shows: the program's printed values and its error,
/// or the compile error. A run that reaches a division of `i64::MIN` by
/// `-1` shows what it printed before.
pub open spec fn lua_demo_text() -> Seq<u8> {
    "Compiling embedded Lua source to bytecode...\n".spec_bytes() + match spec_compile(
        DEMO.spec_bytes(),
    ) {
        Ok(code) => match spec_run(DEMO.spec_bytes(), code) {
            Run::Done(printed, Ok(())) => printed_text(printed),
            Run::Done(printed, Err(e)) => printed_text(printed) + "Lua VM error: ".spec_bytes()
                + e.spec_bytes() + "\n".spec_bytes(),
            Run::Trap(printed) => printed_text(printed),
        },
        Err(e) => "Lua compile error: ".spec_bytes() + e.spec_bytes() + "\n".spec_bytes(),
    }
}

/// Compiles and runs the embedded Lua program, showing what it prints.
#[verifier::rlimit(80)]
pub fn run_lua_demo(ui: &mut Ui)
    requires
        ui_wf(old(ui)@),
    ensures
        final(ui)@ == ui_write(old(ui)@, lua_demo_text()),
        ui_wf(final(ui)@),
{
    let ghost start = ui@;
    assert(ui@ == ui_write(start, Seq::empty())) by {
        assert(start.serial + Seq::<u8>::empty() =~= start.serial);
    }
    write_more(ui, "Compiling embedded Lua source to bytecode...\n", Ghost(start), Ghost(Seq::empty()));
    let ghost w = Seq::<u8>::empty() + "Compiling embedded Lua source to bytecode...\n".spec_bytes();
    match compile(DEMO) {
        Ok(program) => {
            let mut outputs: Vec<Output> = Vec::new();
            let result = program.try_run(&mut outputs);
            let ghost printed = printed_all(outputs@);
            assert(printed_all(Seq::<Output>::empty()) =~= Seq::<Printed>::empty());
            let ghost mut shown = w;
            let mut index: usize = 0;
            while index < outputs.len()
                invariant
                    ui_wf(start),
                    ui_wf(ui@),
                    index <= outputs@.len(),
                    printed == printed_all(outputs@),
                    shown == w + printed_text(printed.subrange(0, index as int)),
                    ui@ == ui_write(start, shown),
                decreases outputs@.len() - index,
            {
                assert(printed.subrange(0, index + 1).drop_last() =~= printed.subrange(0, index as int));
                write_more(ui, "[lua] ", Ghost(start), Ghost(shown));
                let ghost s1 = shown + "[lua] ".spec_bytes();
                let ghost s2;
                match &outputs[index] {
                    Output::Integer(number) => {
                        proof {
                            lemma_ui_write_concat(start, s1, signed_decimal(*number as int));
                            s2 = s1 + signed_decimal(*number as int);
                        }
                        ui.write_number(*number);
                    },
                    Output::String(text) => {
                        write_more(ui, text, Ghost(start), Ghost(s1));
                        proof {
                            s2 = s1 + text.spec_bytes();
                        }
                    },
                }
                write_more(ui, "\n", Ghost(start), Ghost(s2));
                proof {
                    shown = s2 + "\n".spec_bytes();
                    assert(shown =~= w + printed_text(printed.subrange(0, index + 1)));
                }
                index = index + 1;
            }
            assert(printed.subrange(0, printed.len() as int) =~= printed);
            match result {
                Some(Err(error)) => {
                    write_more(ui, "Lua VM error: ", Ghost(start), Ghost(shown));
                    let ghost s1 = shown + "Lua VM error: ".spec_bytes();
                    write_more(ui, error, Ghost(start), Ghost(s1));
                    let ghost s2 = s1 + error.spec_bytes();
                    write_more(ui, "\n", Ghost(start), Ghost(s2));
                    assert(s2 + "\n".spec_bytes() =~= lua_demo_text());
                },
                _ => {
                    assert(shown =~= lua_demo_text());
                },
            }
        },
        Err(error) => {
            write_more(ui, "Lua compile error: ", Ghost(start), Ghost(w));
            let ghost s1 = w + "Lua compile error: ".spec_bytes();
            write_more(ui, error, Ghost(start), Ghost(s1));
            let ghost s2 = s1 + error.spec_bytes();
            write_more(ui, "\n", Ghost(start), Ghost(s2));
            assert(s2 + "\n".spec_bytes() =~= lua_demo_text());
        },
    }
}


/// The status line of the `NET` command.
pub open spec fn net_status_text(st: NetView) -> Seq<u8> {
    "NIC online, IP ".spec_bytes() + ipv4_text(local_ip()) + ", gateway ARP: ".spec_bytes() + (
    if st.gateway_mac is Some {
        "ready"
    } else {
        "waiting"
    }).spec_bytes() + ", RX=".spec_bytes() + signed_decimal((st.received as i64) as int)
        + " TX=".spec_bytes() + signed_decimal((st.sent as i64) as int) + "\n".spec_bytes()
}

/// What a command other than `CLEAR` shows, prompt included; `net` is the
/// network stack's state when a network adapter was found.
pub open spec fn command_reply(command: Command, architecture: Seq<u8>, net: Option<NetView>) -> Seq<u8> {
    let reply = match command {
        Command::Help => "HELP  INFO  CLEAR  LUA  NET  DNS\n".spec_bytes(),
        Command::Info => "BlueOS kernel on ".spec_bytes() + architecture
            + ". No std, no allocator, identity-mapped hardware.\n".spec_bytes(),
        Command::Lua => lua_demo_text(),
        Command::Net => match net {
            Some(st) => net_status_text(st),
            None => "No supported network adapter was found.\n".spec_bytes(),
        },
        Command::Dns => match net {
            Some(_) => "Resolving example.com through 10.0.2.3...\n".spec_bytes(),
            None => "Network is unavailable.\n".spec_bytes(),
        },
        Command::Unknown => "Unknown command. Type HELP.\n".spec_bytes(),
        _ => Seq::empty(),
    };
    reply + "> ".spec_bytes()
}

/// The console after running `command`: `CLEAR` clears the terminal area
/// and shows its own prompt; every other command writes its reply.
pub open spec fn console_after(u: UiView, command: Command, architecture: Seq<u8>, net: Option<NetView>) -> UiView {
    if command == Command::Clear {
        ui_write(ui_clear_area(u), "BlueOS console cleared\n> ".spec_bytes())
    } else {
        ui_write(u, command_reply(command, architecture, net))
    }
}

/// The network stack after running `command`: `NET` hands an ARP request
/// for the gateway to the device, `DNS` the query for example.com (or that
/// ARP request while the gateway is unknown); other commands leave the
/// stack alone.
pub open spec fn network_after(command: Command, old: NetView, new: NetView) -> bool {
    match command {
        Command::Net => handed_once(old, new, spec_arp_request(old.local_mac@), false),
        Command::Dns => match old.gateway_mac {
            Some(gateway) => handed_once(old, new, spec_dns_query(old.local_mac@, gateway@), true),
            None => handed_once(old, new, spec_arp_request(old.local_mac@), false),
        },
        _ => new == old,
    }
}

/// Runs one command line typed at the console.
pub fn execute<N: Nic>(
    command: &str,
    ui: &mut Ui,
    network: &mut Option<(N, NetworkStack)>,
    architecture: &str,
)
    requires
        ui_wf(old(ui)@),
        (*old(network)) is Some ==> (*old(network)).unwrap().1@.sent < u64::MAX,
    ensures
        ui_wf(final(ui)@),
        final(ui)@ == console_after(
            old(ui)@,
            spec_command(command@),
            architecture.spec_bytes(),
            if (*old(network)) is Some {
                Some((*old(network)).unwrap().1@)
            } else {
                None
            },
        ),
        (*final(network)) is Some == (*old(network)) is Some,
        (*old(network)) is Some ==> network_after(
            spec_command(command@),
            (*old(network)).unwrap().1@,
            (*final(network)).unwrap().1@,
        ),
        (*old(network)) is Some ==> device_frames(
            (*old(network)).unwrap().0.sent_frames(),
            (*final(network)).unwrap().0.sent_frames(),
            (*old(network)).unwrap().1@,
            (*final(network)).unwrap().1@,
        ),
        (*old(network)) is Some ==> (*final(network)).unwrap().0.received_frames() == (*old(
            network,
        )).unwrap().0.received_frames(),
{
    let parsed = parse_command(command);
    proof {
        if (*network) is Some {
            lemma_device_nothing(
                (*network).unwrap().0.sent_frames(),
                (*network).unwrap().1@,
                (*network).unwrap().1@,
            );
        }
    }
    let ghost start = ui@;
    let ghost net = if (*network) is Some {
        Some((*network).unwrap().1@)
    } else {
        None::<NetView>
    };
    assert(ui@ == ui_write(start, Seq::empty())) by {
        assert(start.serial + Seq::<u8>::empty() =~= start.serial);
    }
    let ghost e = Seq::<u8>::empty();
    let ghost w: Seq<u8>;
    match parsed {
        Command::Clear => {
            ui.clear();
            return;
        },
        Command::Help => {
            write_more(ui, "HELP  INFO  CLEAR  LUA  NET  DNS\n", Ghost(start), Ghost(e));
            proof { w = e + "HELP  INFO  CLEAR  LUA  NET  DNS\n".spec_bytes(); }
        },
        Command::Info => {
            write_more(ui, "BlueOS kernel on ", Ghost(start), Ghost(e));
            let ghost w1 = e + "BlueOS kernel on ".spec_bytes();
            write_more(ui, architecture, Ghost(start), Ghost(w1));
            let ghost w2 = w1 + architecture.spec_bytes();
            write_more(ui, ". No std, no allocator, identity-mapped hardware.\n", Ghost(start), Ghost(w2));
            proof { w = w2 + ". No std, no allocator, identity-mapped hardware.\n".spec_bytes(); }
        },
        Command::Lua => {
            run_lua_demo(ui);
            proof {
                w = lua_demo_text();
                assert(e + lua_demo_text() =~= lua_demo_text());
            }
        },
        Command::Net => {
            match network {
                Some((nic, stack)) => {
                    write_more(ui, "NIC online, IP ", Ghost(start), Ghost(e));
                    let ghost w1 = e + "NIC online, IP ".spec_bytes();
                    let ip = stack.local_ip();
                    proof { lemma_ui_write_concat(start, w1, ipv4_text(ip@)); }
                    ui.write_ipv4(ip);
                    let ghost w2 = w1 + ipv4_text(ip@);
                    write_more(ui, ", gateway ARP: ", Ghost(start), Ghost(w2));
                    let ghost w3 = w2 + ", gateway ARP: ".spec_bytes();
                    let state = if stack.gateway_ready() { "ready" } else { "waiting" };
                    write_more(ui, state, Ghost(start), Ghost(w3));
                    let ghost w4 = w3 + state.spec_bytes();
                    write_more(ui, ", RX=", Ghost(start), Ghost(w4));
                    let ghost w5 = w4 + ", RX=".spec_bytes();
                    let received = stack.received() as i64;
                    proof { lemma_ui_write_concat(start, w5, signed_decimal(received as int)); }
                    ui.write_number(received);
                    let ghost w6 = w5 + signed_decimal(received as int);
                    write_more(ui, " TX=", Ghost(start), Ghost(w6));
                    let ghost w7 = w6 + " TX=".spec_bytes();
                    let sent = stack.sent() as i64;
                    proof { lemma_ui_write_concat(start, w7, signed_decimal(sent as int)); }
                    ui.write_number(sent);
                    let ghost w8 = w7 + signed_decimal(sent as int);
                    write_more(ui, "\n", Ghost(start), Ghost(w8));
                    proof {
                        w = w8 + "\n".spec_bytes();
                        assert(w =~= net_status_text(net.unwrap()));
                    }
                    stack.start(nic);
                },
                None => {
                    write_more(ui, "No supported network adapter was found.\n", Ghost(start), Ghost(e));
                    proof { w = e + "No supported network adapter was found.\n".spec_bytes(); }
                },
            }
        },
        Command::Dns => {
            match network {
                Some((nic, stack)) => {
                    write_more(ui, "Resolving example.com through 10.0.2.3...\n", Ghost(start), Ghost(e));
                    proof { w = e + "Resolving example.com through 10.0.2.3...\n".spec_bytes(); }
                    stack.request_dns(nic);
                },
                None => {
                    write_more(ui, "Network is unavailable.\n", Ghost(start), Ghost(e));
                    proof { w = e + "Network is unavailable.\n".spec_bytes(); }
                },
            }
        },
        Command::Empty => {
            proof { w = e; }
        },
        Command::Unknown => {
            write_more(ui, "Unknown command. Type HELP.\n", Ghost(start), Ghost(e));
            proof { w = e + "Unknown command. Type HELP.\n".spec_bytes(); }
        },
    }
    write_more(ui, "> ", Ghost(start), Ghost(w));
    assert(w + "> ".spec_bytes() =~= command_reply(parsed, architecture.spec_bytes(), net));
}

/// The line the console shows for a network event, prompt included.
pub open spec fn event_text(event: Event) -> Seq<u8> {
    match event {
        Event::GatewayResolved => "\n[net] gateway MAC resolved; DNS query sent\n> ".spec_bytes(),
        Event::IcmpEchoRequest(address) => "\n[net] answered ICMP echo from ".spec_bytes()
            + ipv4_text(address@) + "\n> ".spec_bytes(),
        Event::IcmpEchoReply(address) => "\n[net] ICMP echo reply from ".spec_bytes() + ipv4_text(
            address@,
        ) + "\n> ".spec_bytes(),
        Event::DnsAnswer(address) => "\n[net] example.com A = ".spec_bytes() + ipv4_text(address@)
            + "\n> ".spec_bytes(),
    }
}

/// Reports a network event on the console.
pub fn show_network_event(ui: &mut Ui, event: Event)
    requires
        ui_wf(old(ui)@),
    ensures
        ui_wf(final(ui)@),
        final(ui)@ == ui_write(old(ui)@, event_text(event)),
{
    let ghost start = ui@;
    assert(ui@ == ui_write(start, Seq::empty())) by {
        assert(start.serial + Seq::<u8>::empty() =~= start.serial);
    }
    let ghost e = Seq::<u8>::empty();
    match event {
        Event::GatewayResolved => {
            write_more(ui, "\n[net] gateway MAC resolved; DNS query sent\n> ", Ghost(start), Ghost(e));
            assert(e + "\n[net] gateway MAC resolved; DNS query sent\n> ".spec_bytes() =~= event_text(event));
        },
        Event::IcmpEchoRequest(address) => {
            write_more(ui, "\n[net] answered ICMP echo from ", Ghost(start), Ghost(e));
            report_address(ui, address, Ghost(start), Ghost(e + "\n[net] answered ICMP echo from ".spec_bytes()));
            assert(e + "\n[net] answered ICMP echo from ".spec_bytes() + ipv4_text(address@) + "\n> ".spec_bytes() =~= event_text(event));
        },
        Event::IcmpEchoReply(address) => {
            write_more(ui, "\n[net] ICMP echo reply from ", Ghost(start), Ghost(e));
            report_address(ui, address, Ghost(start), Ghost(e + "\n[net] ICMP echo reply from ".spec_bytes()));
            assert(e + "\n[net] ICMP echo reply from ".spec_bytes() + ipv4_text(address@) + "\n> ".spec_bytes() =~= event_text(event));
        },
        Event::DnsAnswer(address) => {
            write_more(ui, "\n[net] example.com A = ", Ghost(start), Ghost(e));
            report_address(ui, address, Ghost(start), Ghost(e + "\n[net] example.com A = ".spec_bytes()));
            assert(e + "\n[net] example.com A = ".spec_bytes() + ipv4_text(address@) + "\n> ".spec_bytes() =~= event_text(event));
        },
    }
}

/// Writes `address` and a new prompt after `written`.
fn report_address(ui: &mut Ui, address: [u8; 4], start: Ghost<UiView>, written: Ghost<Seq<u8>>)
    requires
        ui_wf(start@),
        old(ui)@ == ui_write(start@, written@),
    ensures
        final(ui)@ == ui_write(start@, written@ + ipv4_text(address@) + "\n> ".spec_bytes()),
        ui_wf(final(ui)@),
{
    proof { lemma_ui_write_concat(start@, written@, ipv4_text(address@)); }
    ui.write_ipv4(address);
    write_more(ui, "\n> ", start, Ghost(written@ + ipv4_text(address@)));
}

} // verus!
