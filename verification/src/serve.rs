//! What the serve command decides before it listens: the port to listen
//! on, and the message that tells the user where the server is.

use vstd::prelude::*;

verus! {

/// The port that is served where neither the command line nor the project
/// names one.
pub const DEFAULT_PORT: u16 = 34872;

/// How a piece of the start message is shown.
#[derive(Debug, Clone, Copy, PartialEq, Eq, Structural)]
pub enum Tone {
    /// In the colours of the terminal.
    Plain,
    /// Bold and green: where the server is.
    Good,
    /// Bold and yellow: what is out of the ordinary.
    Notice,
}

/// A piece of the start message: text to be shown in one tone.
#[derive(Debug)]
pub struct Span {
    pub tone: Tone,
    pub text: String,
}

/// The digit for a number below ten.
pub open spec fn digit(d: nat) -> char {
    if d == 0 {
        '0'
    } else if d == 1 {
        '1'
    } else if d == 2 {
        '2'
    } else if d == 3 {
        '3'
    } else if d == 4 {
        '4'
    } else if d == 5 {
        '5'
    } else if d == 6 {
        '6'
    } else if d == 7 {
        '7'
    } else if d == 8 {
        '8'
    } else {
        '9'
    }
}

/// A number in decimal digits, without leading zeros.
pub open spec fn decimal(n: nat) -> Seq<char>
    decreases n,
{
    if n < 10 {
        seq![digit(n)]
    } else {
        decimal(n / 10).push(digit(n % 10))
    }
}

/// The port to serve: the one asked for on the command line, or else the
/// one that the project names, or else the default.
pub open spec fn chosen_port(requested: Option<u16>, project: Option<u16>) -> u16 {
    match requested {
        Some(port) => port,
        None => match project {
            Some(port) => port,
            None => DEFAULT_PORT,
        },
    }
}

/// The name that the message gives the address: the loopback address is
/// the local host.
pub open spec fn address_name(loopback: bool, address: Seq<char>) -> Seq<char> {
    if loopback {
        "localhost"@
    } else {
        address
    }
}

/// The pieces of the start message for a server at `host` and `port`;
/// `git_since` is the reference that the served files are held against,
/// where there is one.
pub open spec fn start_spans(host: Seq<char>, port: u16, git_since: Option<Seq<char>>) -> Seq<
    (Tone, Seq<char>),
> {
    let head = seq![
        (Tone::Plain, "Rojo server listening:\n"@),
        (Tone::Plain, "  Address: "@),
        (Tone::Good, host + "\n"@),
        (Tone::Plain, "  Port:    "@),
        (Tone::Good, decimal(port as nat) + "\n"@),
    ];
    let mode = match git_since {
        Some(reference) => seq![
            (Tone::Plain, "  Mode:    "@),
            (Tone::Notice, "git-since ("@ + reference + ")\n"@),
            (Tone::Notice, "\n"@),
        ],
        None => seq![(Tone::Good, "\n"@)],
    };
    let tail = seq![
        (Tone::Plain, "Visit "@),
        (Tone::Good, "http://"@ + host + ":"@ + decimal(port as nat) + "/"@),
        (Tone::Plain, " in your browser for more information.\n"@),
    ];
    head + mode + tail
}

/// The contents of a list of pieces.
pub open spec fn spans_of(spans: Seq<Span>) -> Seq<(Tone, Seq<char>)> {
    spans.map_values(|span: Span| (span.tone, span.text@))
}

/// The port to serve: the one asked for on the command line, or else the
/// one that the project names, or else the default.
pub fn serve_port(requested: Option<u16>, project: Option<u16>) -> (port: u16)
    ensures
        port == chosen_port(requested, project),
{
    match requested {
        Some(port) => port,
        None => match project {
            Some(port) => port,
            None => DEFAULT_PORT,
        },
    }
}

/// The name that the message gives the address.
pub fn host_name(loopback: bool, address: &str) -> (name: String)
    ensures
        name@ == address_name(loopback, address@),
{
    if loopback {
        String::from_str("localhost")
    } else {
        String::from_str(address)
    }
}

/// The digit for a number below ten.
fn digit_of(d: u16) -> (c: char)
    requires
        d < 10,
    ensures
        c == digit(d as nat),
{
    if d == 0 {
        '0'
    } else if d == 1 {
        '1'
    } else if d == 2 {
        '2'
    } else if d == 3 {
        '3'
    } else if d == 4 {
        '4'
    } else if d == 5 {
        '5'
    } else if d == 6 {
        '6'
    } else if d == 7 {
        '7'
    } else if d == 8 {
        '8'
    } else {
        '9'
    }
}

/// Appends `n` in decimal digits.
fn push_decimal(text: &mut String, n: u16)
    ensures
        final(text)@ == old(text)@ + decimal(n as nat),
    decreases n,
{
    if n >= 10 {
        push_decimal(text, n / 10);
    }
    text.push(digit_of(n % 10));
    assert(text@ =~= old(text)@ + decimal(n as nat));
}

/// A number in decimal digits.
pub fn decimal_text(n: u16) -> (text: String)
    ensures
        text@ == decimal(n as nat),
{
    let mut text = String::new();
    push_decimal(&mut text, n);
    assert(text@ =~= decimal(n as nat));
    text
}

/// A piece of the message.
fn span(tone: Tone, text: String) -> (piece: Span)
    ensures
        piece.tone == tone,
        piece.text@ == text@,
{
    Span { tone, text }
}

/// The start message for a server at `host` and `port`, in pieces: where
/// the server listens, what it is held against where `git_since` names a
/// reference, and the address to visit.
pub fn start_message(host: &str, port: u16, git_since: Option<&str>) -> (spans: Vec<Span>)
    ensures
        spans_of(spans@) == start_spans(
            host@,
            port,
            match git_since {
                Some(reference) => Some(reference@),
                None => None,
            },
        ),
{
    let mut spans: Vec<Span> = Vec::new();
    spans.push(span(Tone::Plain, String::from_str("Rojo server listening:\n")));
    spans.push(span(Tone::Plain, String::from_str("  Address: ")));
    let mut line = String::from_str(host);
    line.append("\n");
    spans.push(span(Tone::Good, line));
    spans.push(span(Tone::Plain, String::from_str("  Port:    ")));
    let mut line = decimal_text(port);
    line.append("\n");
    spans.push(span(Tone::Good, line));
    match git_since {
        Some(reference) => {
            spans.push(span(Tone::Plain, String::from_str("  Mode:    ")));
            let mut line = String::from_str("git-since (");
            line.append(reference);
            line.append(")\n");
            spans.push(span(Tone::Notice, line));
            spans.push(span(Tone::Notice, String::from_str("\n")));
        },
        None => {
            spans.push(span(Tone::Good, String::from_str("\n")));
        },
    }
    spans.push(span(Tone::Plain, String::from_str("Visit ")));
    let mut link = String::from_str("http://");
    link.append(host);
    link.append(":");
    link.append(decimal_text(port).as_str());
    link.append("/");
    spans.push(span(Tone::Good, link));
    spans.push(span(Tone::Plain, String::from_str(" in your browser for more information.\n")));
    assert(spans_of(spans@) =~= start_spans(
        host@,
        port,
        match git_since {
            Some(reference) => Some(reference@),
            None => None,
        },
    ));
    spans
}

} // verus!
