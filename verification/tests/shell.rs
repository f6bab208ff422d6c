use lib::shell::{FeedResult, Shell};

#[test]
fn printable_bytes_are_echoed() {
    let mut shell = Shell::new();
    assert_eq!(shell.feed(b'h'), FeedResult::Echo(b'h'));
    assert_eq!(shell.feed(b'i'), FeedResult::Echo(b'i'));
    assert_eq!(shell.line(), "hi");
    assert_eq!(shell.feed(b'\r'), FeedResult::Ready);
    assert_eq!(shell.line(), "hi");
    assert_eq!(shell.feed(b'\n'), FeedResult::Ready);
    shell.reset();
    assert_eq!(shell.line(), "");
}

#[test]
fn backspace_takes_back_the_last_byte() {
    let mut shell = Shell::new();
    assert_eq!(shell.feed(8), FeedResult::Ignored);
    shell.feed(b'a');
    shell.feed(b'b');
    assert_eq!(shell.feed(8), FeedResult::Backspace);
    assert_eq!(shell.line(), "a");
    assert_eq!(shell.feed(127), FeedResult::Backspace);
    assert_eq!(shell.line(), "");
}

#[test]
fn control_and_high_bytes_are_ignored() {
    let mut shell = Shell::new();
    assert_eq!(shell.feed(0x1b), FeedResult::Ignored);
    assert_eq!(shell.feed(0x80), FeedResult::Ignored);
    assert_eq!(shell.feed(0xf1), FeedResult::Ignored);
    assert_eq!(shell.line(), "");
}

#[test]
fn line_holds_eighty_bytes() {
    let mut shell = Shell::new();
    for _ in 0..80 {
        assert_eq!(shell.feed(b'x'), FeedResult::Echo(b'x'));
    }
    assert_eq!(shell.feed(b'y'), FeedResult::Ignored);
    assert_eq!(shell.line().len(), 80);
    assert_eq!(shell.line_bytes(), &[b'x'; 80][..]);
}
