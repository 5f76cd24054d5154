use card_counter::{log_s, Log};

#[test]
fn enabled_sink_collects_lines() {
    let mut sink = Log::new(true);
    log_s(&mut sink, String::from("first"));
    log_s(&mut sink, String::from("second"));
    assert_eq!(sink.lines.len(), 2);
    assert_eq!(sink.lines[0], "first");
    assert_eq!(sink.lines[1], "second");
}

#[test]
fn disabled_sink_drops_lines() {
    let mut sink = Log::new(false);
    log_s(&mut sink, String::from("ignored"));
    assert_eq!(sink.lines.len(), 0);
}
