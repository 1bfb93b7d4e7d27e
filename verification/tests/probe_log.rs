use ln_routing_replay::node_id::NodeId;
use ln_routing_replay::probe_log::{
    is_ignored_line, parse_hop, parse_path, parse_probe, LoggedHop, ParsedChannel,
};
use ln_routing_replay::text::chars_of;

const NODE: &str = "0279be667ef9dcbbac55a06295ce870b07029bfcdb2dce28d959f2815b16f81798";

fn node() -> NodeId {
    let mut bytes = [0u8; 33];
    for (i, byte) in bytes.iter_mut().enumerate() {
        *byte = u8::from_str_radix(&NODE[2 * i..2 * i + 2], 16).unwrap();
    }
    NodeId { bytes }
}

fn line(path: &str) -> String {
    format!("1740700800 - start at {} {}", NODE, path)
}

fn channel(scid: u64, amount: u64) -> ParsedChannel {
    ParsedChannel { scid, amount }
}

#[test]
fn a_probe_that_reached_its_end_is_read() {
    let text = line("0.95 (1000 msat on 973586760097005568), 0.5 (999 msat on 17)");
    let probe = parse_probe(&text).unwrap();
    assert_eq!(probe.timestamp, 1740700800);
    assert_eq!(probe.starting_node, node());
    assert_eq!(probe.passed_chans, vec![channel(973586760097005568, 1000), channel(17, 999)]);
    assert_eq!(probe.failed_chan, None);
}

#[test]
fn a_probe_that_failed_is_read() {
    let text = line("0.95 (1000 msat on 5), inv 0.25 (999 msat on 6)");
    let probe = parse_probe(&text).unwrap();
    assert_eq!(probe.passed_chans, vec![channel(5, 1000)]);
    assert_eq!(probe.failed_chan, Some(channel(6, 999)));
}

#[test]
fn the_failed_hop_may_stand_anywhere() {
    let text = line("inv 0.25 (999 msat on 6),0.95 (1000 msat on 5),0.1(7 msat on 8)");
    let probe = parse_probe(&text).unwrap();
    assert_eq!(probe.passed_chans, vec![channel(5, 1000), channel(8, 7)]);
    assert_eq!(probe.failed_chan, Some(channel(6, 999)));
}

#[test]
fn other_words_may_stand_before_the_route_and_behind_a_hop() {
    let text = format!(
        "12 some words (of no use) - start at {} p (3 msat on 4 and more), q (1 msat on 2)",
        NODE
    );
    let probe = parse_probe(&text).unwrap();
    assert_eq!(probe.timestamp, 12);
    assert_eq!(probe.passed_chans, vec![channel(4, 3), channel(2, 1)]);
}

#[test]
fn lines_without_use_are_ignored() {
    for words in
        ["unknown path success prob, probably had a duplicate", "path failed at first hop"]
    {
        let text = format!("{} {}", line("0.95 (1000 msat on 5)"), words);
        assert!(is_ignored_line(&text));
        assert!(parse_probe(&text).is_none());
    }
    assert!(!is_ignored_line(&line("0.95 (1000 msat on 5)")));
    assert!(!is_ignored_line("path failed at firsthop"));
}

#[test]
fn lines_that_are_no_probes_are_not_read() {
    let good = "0.95 (1000 msat on 5)";
    let lines = [
        String::new(),
        "1740700800".to_string(),
        format!("x{}", line(good)),
        format!(" {}", line(good)),
        format!("18446744073709551616 - start at {} {}", NODE, good),
        format!("1740700800 start at {} {}", NODE, good),
        format!("1740700800 - start at {}", NODE),
        format!("1740700800 - start at {} {}", &NODE[1..], good),
        format!("1740700800 - start at {}0 {}", NODE, good),
        format!("1740700800 - start at {}g {}", &NODE[1..], good),
        line(""),
        line("0.95 1000 msat on 5"),
        line("0.95 (x msat on 5)"),
        line("0.95 (1000 sat on 5)"),
        line("0.95 (1000 msat at 5)"),
        line("0.95 (1000 msat on)"),
        line("0.95 (1000 msat on x)"),
        line("0.95 (1000 msat on 5))"),
        line("0.95 (1000  msat on 5)"),
        line("0.95 (1000 msat on 5),"),
        line("inv 0.95 (1000 msat on 5), inv 0.5 (999 msat on 6)"),
    ];
    for text in &lines {
        assert!(parse_probe(text).is_none(), "{:?}", text);
        assert!(!is_ignored_line(text), "{:?}", text);
    }
}

#[test]
fn node_ids_are_read_in_either_case() {
    let text = line("0.95 (1000 msat on 5)").replace(NODE, &NODE.to_uppercase());
    assert_eq!(parse_probe(&text).unwrap().starting_node, node());
}

#[test]
fn a_written_node_id_is_read_back() {
    for byte in 0..=255u8 {
        let hex: String = (0..33u8).map(|i| format!("{:02x}", byte.wrapping_add(i))).collect();
        let text = line("0.95 (1000 msat on 5)").replace(NODE, &hex);
        let read = parse_probe(&text).unwrap().starting_node;
        assert!((0..33usize).all(|i| read.bytes[i] == byte.wrapping_add(i as u8)));
    }
}

#[test]
fn node_ids_are_compared_by_their_bytes() {
    let mut other = node();
    assert!(node().same_as(&other));
    other.bytes[32] ^= 1;
    assert!(!node().same_as(&other));
}

#[test]
fn a_hop_is_read_from_its_piece() {
    let hop = parse_hop(&chars_of("\u{2003} inv 0.5 (+12 msat on 007)"));
    assert_eq!(hop, Some(LoggedHop { failed: true, channel: channel(7, 12) }));
    let hop = parse_hop(&chars_of("invalid (12 msat on 7"));
    assert_eq!(hop, Some(LoggedHop { failed: false, channel: channel(7, 12) }));
    assert_eq!(parse_hop(&chars_of("0.5 (12 msat")), None);
    assert_eq!(parse_hop(&chars_of("")), None);
}

#[test]
fn the_probability_of_a_hop_is_not_read() {
    let expected = parse_hop(&chars_of("0.5 (12 msat on 7)"));
    assert!(expected.is_some());
    for probability in ["1", "nonsense ", "0.999999 "] {
        let piece = format!("{}(12 msat on 7)", probability);
        assert_eq!(parse_hop(&chars_of(&piece)), expected);
    }
}

#[test]
fn every_hop_of_a_path_is_kept() {
    let path = "a (1 msat on 1), inv b (2 msat on 2), c (3 msat on 3), d (4 msat on 4)";
    let parsed = parse_path(&chars_of(path)).unwrap();
    assert_eq!(parsed.passed_chans, vec![channel(1, 1), channel(3, 3), channel(4, 4)]);
    assert_eq!(parsed.failed_chan, Some(channel(2, 2)));
    assert!(parse_path(&chars_of("a (1 msat on 1), b")).is_none());
}

#[test]
fn a_written_line_is_read_back() {
    let hops = [(3, 4, false), (u64::MAX, 0, true), (7, u64::MAX, false)];
    let path: Vec<String> = hops
        .iter()
        .map(|(amount, scid, failed)| {
            format!("{}0.5 ({} msat on {})", if *failed { "inv " } else { "" }, amount, scid)
        })
        .collect();
    let probe = parse_probe(&line(&path.join(", "))).unwrap();
    assert_eq!((probe.timestamp, probe.starting_node), (1740700800, node()));
    assert_eq!(probe.passed_chans, vec![channel(4, 3), channel(u64::MAX, 7)]);
    assert_eq!(probe.failed_chan, Some(channel(0, u64::MAX)));
}

#[test]
fn the_wording_of_a_line_is_not_read() {
    let lines = [
        line("0.5 (3 msat on 4),inv 0.5 (2 msat on 5)"),
        format!("1740700800 took 3 s - start at {} (3 msat on 4), \t inv (2 msat on 5)", NODE),
        format!("1740700800 - - start at {}  x(3 msat on 4),inv inv 9(2 msat on 5)", NODE),
    ];
    for text in &lines {
        let probe = parse_probe(text).unwrap();
        assert_eq!((probe.timestamp, probe.starting_node), (1740700800, node()), "{}", text);
        assert_eq!(probe.passed_chans, vec![channel(4, 3)]);
        assert_eq!(probe.failed_chan, Some(channel(5, 2)));
    }
}
