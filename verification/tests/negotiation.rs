//! Tests for the negotiation engine, driving it with peer replies that are
//! framed and decoded through the real codecs.

use multistream_select::Error;
use multistream_select::Progress;
use multistream_select::line::deserialise_varint_line;
use multistream_select::line::serialise_varint_line;
use multistream_select::negotiate::Negotiator;
use multistream_select::negotiate::Step;
use multistream_select::negotiate::multistream_protocol;
use multistream_select::negotiate::na_token;

fn frame(line: &str) -> Vec<u8> {
    let mut out = Vec::new();
    serialise_varint_line(&mut out, line).unwrap();
    out
}

/// A peer whose queued replies arrive over a byte buffer, decoded one framed
/// line at a time, exactly as a stream-driving caller would.
struct Peer {
    wire: Vec<u8>,
    cursor: usize,
}

impl Peer {
    fn replying(lines: &[&str]) -> Peer {
        let mut wire = Vec::new();
        for line in lines {
            serialise_varint_line(&mut wire, line).unwrap();
        }
        Peer { wire, cursor: 0 }
    }

    fn next_line(&mut self) -> String {
        match deserialise_varint_line(&self.wire[self.cursor..]) {
            Progress::Done(text, used) => {
                self.cursor += used;
                text
            }
            other => panic!("peer reply did not decode: {:?}", other),
        }
    }
}

fn start(candidates: &[&str]) -> (Negotiator, Vec<u8>) {
    let owned: Vec<String> = candidates.iter().map(|c| c.to_string()).collect();
    Negotiator::new(owned).unwrap()
}

#[test]
fn success_on_first_candidate() {
    let (mut neg, opening) = start(&["/tls/1.0.0"]);
    let mut expected = frame(multistream_protocol());
    expected.extend_from_slice(&frame("/tls/1.0.0"));
    assert_eq!(opening, expected);

    let mut peer = Peer::replying(&["/multistream/1.0.0", "/tls/1.0.0"]);
    assert!(matches!(neg.on_line(&peer.next_line()), Step::Read));
    assert!(matches!(neg.on_line(&peer.next_line()), Step::Selected(0)));
}

#[test]
fn success_on_later_candidate() {
    let (mut neg, _opening) = start(&["/a/1.0.0", "/b/1.0.0"]);
    let mut peer = Peer::replying(&["/multistream/1.0.0", "na", "/b/1.0.0"]);
    assert!(matches!(neg.on_line(&peer.next_line()), Step::Read));
    match neg.on_line(&peer.next_line()) {
        Step::Send(bytes) => assert_eq!(bytes, frame("/b/1.0.0")),
        other => panic!("expected a new proposal, got {:?}", step_name(&other)),
    }
    assert!(matches!(neg.on_line(&peer.next_line()), Step::Selected(1)));
}

#[test]
fn no_common_protocol() {
    let (mut neg, _opening) = start(&["/a/1.0.0"]);
    let mut peer = Peer::replying(&["/multistream/1.0.0", "na"]);
    assert!(matches!(neg.on_line(&peer.next_line()), Step::Read));
    assert!(matches!(neg.on_line(&peer.next_line()), Step::NoMatch));
}

#[test]
fn rejects_unexpected_version() {
    let (mut neg, _opening) = start(&["/a/1.0.0"]);
    let mut peer = Peer::replying(&["/multistream/2.0.0"]);
    assert!(matches!(
        neg.on_line(&peer.next_line()),
        Step::Fail(Error::UnexpectedVersion)
    ));
}

#[test]
fn rejects_unexpected_response() {
    let (mut neg, _opening) = start(&["/a/1.0.0"]);
    let mut peer = Peer::replying(&["/multistream/1.0.0", "/intruder/9.9.9"]);
    assert!(matches!(neg.on_line(&peer.next_line()), Step::Read));
    assert!(matches!(
        neg.on_line(&peer.next_line()),
        Step::Fail(Error::UnexpectedResponse)
    ));
}

#[test]
fn empty_candidate_list_is_refused() {
    match Negotiator::new(Vec::new()) {
        Err(Error::EmptyCandidateList) => {}
        _ => panic!("an empty candidate list must be refused"),
    }
}

#[test]
fn candidate_named_like_rejection_token_is_selected() {
    // an echoed candidate wins even when the candidate is literally "na"
    let (mut neg, _opening) = start(&["na"]);
    let mut peer = Peer::replying(&["/multistream/1.0.0", "na"]);
    assert!(matches!(neg.on_line(&peer.next_line()), Step::Read));
    assert!(matches!(neg.on_line(&peer.next_line()), Step::Selected(0)));
}

#[test]
fn walks_down_three_candidates() {
    let (mut neg, _opening) = start(&["/a/1.0.0", "/b/1.0.0", "/c/1.0.0"]);
    let mut peer = Peer::replying(&["/multistream/1.0.0", "na", "na", "/c/1.0.0"]);
    assert!(matches!(neg.on_line(&peer.next_line()), Step::Read));
    match neg.on_line(&peer.next_line()) {
        Step::Send(bytes) => assert_eq!(bytes, frame("/b/1.0.0")),
        other => panic!("expected a new proposal, got {:?}", step_name(&other)),
    }
    match neg.on_line(&peer.next_line()) {
        Step::Send(bytes) => assert_eq!(bytes, frame("/c/1.0.0")),
        other => panic!("expected a new proposal, got {:?}", step_name(&other)),
    }
    assert!(matches!(neg.on_line(&peer.next_line()), Step::Selected(2)));
}

#[test]
fn rejection_token_is_na() {
    assert_eq!(na_token(), "na");
    assert_eq!(multistream_protocol(), "/multistream/1.0.0");
}

fn step_name(step: &Step) -> &'static str {
    match step {
        Step::Read => "Read",
        Step::Send(_) => "Send",
        Step::Selected(_) => "Selected",
        Step::NoMatch => "NoMatch",
        Step::Fail(_) => "Fail",
    }
}
