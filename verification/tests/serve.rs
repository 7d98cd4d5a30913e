use git_filter::serve::{decimal_text, host_name, serve_port, start_message, Span, Tone, DEFAULT_PORT};

fn shown(spans: &Vec<Span>) -> Vec<(Tone, &str)> {
    spans.iter().map(|span| (span.tone, span.text.as_str())).collect()
}

#[test]
fn port_is_the_requested_one_or_the_projects_or_the_default() {
    assert_eq!(DEFAULT_PORT, 34872);
    assert_eq!(serve_port(Some(8000), Some(9000)), 8000);
    assert_eq!(serve_port(Some(8000), None), 8000);
    assert_eq!(serve_port(None, Some(9000)), 9000);
    assert_eq!(serve_port(None, None), 34872);
}

#[test]
fn loopback_is_named_localhost() {
    assert_eq!(host_name(true, "127.0.0.1"), "localhost");
    assert_eq!(host_name(true, "::1"), "localhost");
    assert_eq!(host_name(false, "192.168.1.4"), "192.168.1.4");
}

#[test]
fn numbers_are_written_in_decimal() {
    assert_eq!(decimal_text(0), "0");
    assert_eq!(decimal_text(7), "7");
    assert_eq!(decimal_text(10), "10");
    assert_eq!(decimal_text(34872), "34872");
    assert_eq!(decimal_text(65535), "65535");
    assert_eq!(decimal_text(1009), "1009");
}

#[test]
fn decimal_agrees_with_std_on_every_port() {
    let mut n: u16 = 0;
    loop {
        assert_eq!(decimal_text(n), n.to_string());
        if n == u16::MAX {
            break;
        }
        n += 1;
    }
}

#[test]
fn start_message_without_a_reference() {
    let spans = start_message("localhost", 34872, None);
    assert_eq!(
        shown(&spans),
        vec![
            (Tone::Plain, "Rojo server listening:\n"),
            (Tone::Plain, "  Address: "),
            (Tone::Good, "localhost\n"),
            (Tone::Plain, "  Port:    "),
            (Tone::Good, "34872\n"),
            (Tone::Good, "\n"),
            (Tone::Plain, "Visit "),
            (Tone::Good, "http://localhost:34872/"),
            (Tone::Plain, " in your browser for more information.\n"),
        ]
    );
}

#[test]
fn start_message_names_the_reference() {
    let spans = start_message("10.0.0.2", 80, Some("main"));
    assert_eq!(
        shown(&spans),
        vec![
            (Tone::Plain, "Rojo server listening:\n"),
            (Tone::Plain, "  Address: "),
            (Tone::Good, "10.0.0.2\n"),
            (Tone::Plain, "  Port:    "),
            (Tone::Good, "80\n"),
            (Tone::Plain, "  Mode:    "),
            (Tone::Notice, "git-since (main)\n"),
            (Tone::Notice, "\n"),
            (Tone::Plain, "Visit "),
            (Tone::Good, "http://10.0.0.2:80/"),
            (Tone::Plain, " in your browser for more information.\n"),
        ]
    );
}
