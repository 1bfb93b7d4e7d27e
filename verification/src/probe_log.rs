//! The probe log: one line of text for each probe that was sent.

use crate::node_id::{
    hex_of, is_hex_digit, law_node_id_is_read_back, node_id_of, parse_node_id, NodeId, NODE_ID_LEN,
};
use crate::text::{
    begins_with, chars_of, contains, decimal_of, find, find_chars, is_white_space, join,
    law_first_occurrence_is_found, law_first_piece_ends_at_separator, law_joined_pieces_are_split,
    law_number_is_read_back, law_trimmed_text_follows_white_space, lemma_decimal_of,
    lemma_find_from, lemma_find_is, lemma_split_at, lemma_trim_start, parse_number, same_chars,
    split, split_chars, split_chars_once, split_once, strip_char_suffix, trim_chars_start,
    trim_start, unsigned_number, without_suffix,
};
use vstd::prelude::*;
use vstd::string::StrSliceExecFns;

verus! {

/// A channel that a probe was sent over, and the amount that was sent.
#[derive(Clone, Copy, Debug, PartialEq, Eq, Structural)]
pub struct ParsedChannel {
    /// The short channel id.
    pub scid: u64,
    /// The amount, in thousandths of a satoshi.
    pub amount: u64,
}

/// A probe as the log has it: the channels by their ids alone.
#[derive(Debug)]
pub struct ParsedProbeResult {
    /// The time at which the probe was completed, as a UNIX timestamp.
    pub timestamp: u64,
    /// The node at which the logged part of the path begins.
    pub starting_node: NodeId,
    /// The channels that passed the probe on, in the order of the path.
    pub passed_chans: Vec<ParsedChannel>,
    /// The channel that refused it, if any did.
    pub failed_chan: Option<ParsedChannel>,
}

/// What a [`ParsedProbeResult`] says.
pub struct ParsedProbeView {
    pub timestamp: u64,
    pub starting_node: Seq<u8>,
    pub passed_chans: Seq<ParsedChannel>,
    pub failed_chan: Option<ParsedChannel>,
}

impl View for ParsedProbeResult {
    type V = ParsedProbeView;

    open spec fn view(&self) -> ParsedProbeView {
        ParsedProbeView {
            timestamp: self.timestamp,
            starting_node: self.starting_node@,
            passed_chans: self.passed_chans@,
            failed_chan: self.failed_chan,
        }
    }
}

/// One hop of a logged path.
#[derive(Clone, Copy, Debug, PartialEq, Eq, Structural)]
pub struct LoggedHop {
    /// Whether the probe failed here.
    pub failed: bool,
    /// The channel and the amount.
    pub channel: ParsedChannel,
}

/// Whether the log marks the line as one that says nothing about any channel.
pub open spec fn is_ignored(line: Seq<char>) -> bool {
    ||| contains(line, "unknown path success prob, probably had a duplicate"@)
    ||| contains(line, "path failed at first hop"@)
}

/// The timestamp of a line: the number before its first space.
pub open spec fn timestamp_of(line: Seq<char>) -> Option<u64> {
    match split_once(line, seq![' ']) {
        Some((head, _)) => unsigned_number(head),
        None => None,
    }
}

/// The starting node and the path of a line, as text: what stands before and after the first space
/// behind the words that announce them.
pub open spec fn route_of(line: Seq<char>) -> Option<(Seq<char>, Seq<char>)> {
    match split_once(line, " - start at "@) {
        Some((_, useful)) => split_once(useful, seq![' ']),
        None => None,
    }
}

/// The hop that one piece of a path describes: a probability that is not read, then in round
/// brackets `<amount> msat on <scid>`. The piece of a hop that failed begins with `inv`.
pub open spec fn hop_of(piece: Seq<char>) -> Option<LoggedHop> {
    let hop = trim_start(piece);
    match split_once(hop, seq!['(']) {
        Some((_, fields)) => {
            let words = split(fields, ' ');
            if words.len() >= 4 && words[1] == "msat"@ && words[2] == "on"@ {
                match (unsigned_number(words[0]), unsigned_number(without_suffix(words[3], ')'))) {
                    (Some(amount), Some(scid)) => Some(
                        LoggedHop {
                            failed: "inv "@.is_prefix_of(hop),
                            channel: ParsedChannel { scid, amount },
                        },
                    ),
                    _ => None,
                }
            } else {
                None
            }
        },
        None => None,
    }
}

/// Whether every piece describes a hop.
pub open spec fn all_hops(pieces: Seq<Seq<char>>) -> bool {
    forall|i: int| 0 <= i < pieces.len() ==> hop_of(#[trigger] pieces[i]) is Some
}

/// The hops that the pieces of a path describe.
pub open spec fn hops_of(pieces: Seq<Seq<char>>) -> Seq<LoggedHop> {
    Seq::new(pieces.len(), |i: int| hop_of(pieces[i])->0)
}

/// The channels of the hops that passed the probe on (`failed` false) or refused it (true).
pub open spec fn channels_where(hops: Seq<LoggedHop>, failed: bool) -> Seq<ParsedChannel> {
    hops.filter(|hop: LoggedHop| hop.failed == failed).map_values(|hop: LoggedHop| hop.channel)
}

/// The probe that a line of the log describes, if it describes one: the line is not marked as
/// without use, and its timestamp, its starting node and every hop of its path can be read, at most
/// one of them as failed.
pub open spec fn probe_of(line: Seq<char>) -> Option<ParsedProbeView> {
    match (timestamp_of(line), route_of(line)) {
        (Some(timestamp), Some((node, path))) => {
            let pieces = split(path, ',');
            let failed = channels_where(hops_of(pieces), true);
            match node_id_of(node) {
                Some(starting_node) if !is_ignored(line) && all_hops(pieces) && failed.len()
                    <= 1 => Some(
                    ParsedProbeView {
                        timestamp,
                        starting_node,
                        passed_chans: channels_where(hops_of(pieces), false),
                        failed_chan: if failed.len() == 1 {
                            Some(failed[0])
                        } else {
                            None
                        },
                    },
                ),
                _ => None,
            }
        },
        _ => None,
    }
}

/// Whether the log marks `line` as one that says nothing about any channel. Every other line is
/// meant to describe a probe.
pub fn is_ignored_line(line: &str) -> (ignored: bool)
    ensures
        ignored == is_ignored(line@),
{
    let chars = chars_of(line);
    find_chars(
        chars.as_slice(),
        chars_of("unknown path success prob, probably had a duplicate").as_slice(),
    ).is_some() || find_chars(
        chars.as_slice(),
        chars_of("path failed at first hop").as_slice(),
    ).is_some()
}

/// Reads one piece of a path.
pub fn parse_hop(piece: &[char]) -> (hop: Option<LoggedHop>)
    ensures
        hop == hop_of(piece@),
{
    let hop = trim_chars_start(piece);
    let bracket: Vec<char> = vec!['('];
    assert(bracket@ == seq!['(']);
    match split_chars_once(hop, bracket.as_slice()) {
        Some((_, fields)) => {
            let words = split_chars(fields, ' ');
            if words.len() < 4 {
                return None;
            }
            let amount = parse_number(words[0]);
            if !same_chars(words[1], chars_of("msat").as_slice()) {
                return None;
            }
            if !same_chars(words[2], chars_of("on").as_slice()) {
                return None;
            }
            let scid = parse_number(strip_char_suffix(words[3], ')'));
            match (amount, scid) {
                (Some(amount), Some(scid)) => Some(
                    LoggedHop {
                        failed: begins_with(hop, chars_of("inv ").as_slice()),
                        channel: ParsedChannel { scid, amount },
                    },
                ),
                _ => None,
            }
        },
        None => None,
    }
}

/// One more hop at the end of a path adds its channel at the end of the channels of its kind.
proof fn lemma_channels_where_push(hops: Seq<LoggedHop>, hop: LoggedHop, failed: bool)
    ensures
        channels_where(hops.push(hop), failed) == if hop.failed == failed {
            channels_where(hops, failed).push(hop.channel)
        } else {
            channels_where(hops, failed)
        },
{
    let pred = |h: LoggedHop| h.failed == failed;
    assert(hops.push(hop).drop_last() == hops);
    assert(hops.push(hop).last() == hop);
    reveal_with_fuel(Seq::filter, 2);
    assert(hops.push(hop).filter(pred) == if pred(hop) {
        hops.filter(pred).push(hop)
    } else {
        hops.filter(pred)
    });
    if pred(hop) {
        assert(channels_where(hops.push(hop), failed) =~= channels_where(hops, failed).push(
            hop.channel,
        ));
    }
}

proof fn lemma_channels_where_split(hops: Seq<LoggedHop>)
    ensures
        channels_where(hops, false).len() + channels_where(hops, true).len() == hops.len(),
    decreases hops.len(),
{
    if hops.len() == 0 {
        reveal(Seq::filter);
    } else {
        lemma_channels_where_split(hops.drop_last());
        assert(hops == hops.drop_last().push(hops.last()));
        lemma_channels_where_push(hops.drop_last(), hops.last(), false);
        lemma_channels_where_push(hops.drop_last(), hops.last(), true);
    }
}

/// Every hop of a logged path is kept: the channels that passed the probe on and the one that
/// refused it, if any did, are as many as the pieces of the path.
pub proof fn law_every_hop_is_kept(line: Seq<char>)
    ensures
        probe_of(line) matches Some(probe) ==> {
            &&& route_of(line) matches Some((_, path)) && split(path, ',').len()
                == probe.passed_chans.len() + if probe.failed_chan is Some {
                1nat
            } else {
                0nat
            }
        },
{
    if let Some((_, path)) = route_of(line) {
        lemma_channels_where_split(hops_of(split(path, ',')));
    }
}

/// The text that is read as the time of a line.
pub open spec fn timestamp_text(line: Seq<char>) -> Option<Seq<char>> {
    match split_once(line, seq![' ']) {
        Some((head, _)) => Some(head),
        None => None,
    }
}

/// The text behind the opening bracket of a piece of a path.
pub open spec fn bracket_text(piece: Seq<char>) -> Option<Seq<char>> {
    match split_once(trim_start(piece), seq!['(']) {
        Some((_, fields)) => Some(fields),
        None => None,
    }
}

/// Whether a piece of a path is marked as that of a hop that failed.
pub open spec fn is_marked(piece: Seq<char>) -> bool {
    "inv "@.is_prefix_of(trim_start(piece))
}

/// Whether the pieces of two paths have the same text behind their brackets and the same marks.
pub open spec fn same_pieces(a: Seq<Seq<char>>, b: Seq<Seq<char>>) -> bool {
    &&& a.len() == b.len()
    &&& forall|i: int|
        0 <= i < a.len() ==> bracket_text(#[trigger] a[i]) == bracket_text(b[i]) && is_marked(a[i])
            == is_marked(b[i])
}

/// Nothing but the text of the time, the text of the starting node, the text behind each bracket
/// and the mark of each hop is read: any two lines that agree on these, and on whether they are
/// ignored, describe the same probe or none.
pub proof fn law_nothing_else_is_read(a: Seq<char>, b: Seq<char>)
    requires
        is_ignored(a) == is_ignored(b),
        timestamp_text(a) == timestamp_text(b),
        match (route_of(a), route_of(b)) {
            (Some((node_a, path_a)), Some((node_b, path_b))) => node_a == node_b && same_pieces(
                split(path_a, ','),
                split(path_b, ','),
            ),
            (None, None) => true,
            _ => false,
        },
    ensures
        probe_of(a) == probe_of(b),
{
    if let (Some((_, path_a)), Some((_, path_b))) = (route_of(a), route_of(b)) {
        let (pieces_a, pieces_b) = (split(path_a, ','), split(path_b, ','));
        assert forall|i: int| 0 <= i < pieces_a.len() implies hop_of(#[trigger] pieces_a[i])
            == hop_of(pieces_b[i]) by {}
        assert(hops_of(pieces_a) =~= hops_of(pieces_b));
        assert(all_hops(pieces_a) == all_hops(pieces_b)) by {
            if all_hops(pieces_a) {
                assert forall|i: int| 0 <= i < pieces_b.len() implies hop_of(
                    #[trigger] pieces_b[i],
                ) is Some by {
                    assert(hop_of(pieces_a[i]) is Some);
                }
            }
            if all_hops(pieces_b) {
                assert forall|i: int| 0 <= i < pieces_a.len() implies hop_of(
                    #[trigger] pieces_a[i],
                ) is Some by {
                    assert(hop_of(pieces_b[i]) is Some);
                }
            }
        }
    }
}

/// A piece of a path as it is written: any white space, any text in place of the probability, and
/// the text behind the opening bracket.
pub struct WrittenPiece {
    pub lead: Seq<char>,
    pub probability: Seq<char>,
    pub fields: Seq<char>,
}

impl WrittenPiece {
    /// The text of the piece.
    pub open spec fn text(self) -> Seq<char> {
        self.lead + (self.probability + seq!['('] + self.fields)
    }

    /// Whether the hop is marked as one that failed.
    pub open spec fn marked(self) -> bool {
        "inv "@.is_prefix_of(self.probability)
    }

    /// Whether the piece keeps to the form of the log: white space alone in front, no opening
    /// bracket in the probability, and no comma.
    pub open spec fn is_in_form(self) -> bool {
        &&& forall|i: int| 0 <= i < self.lead.len() ==> is_white_space(#[trigger] self.lead[i])
        &&& !self.probability.contains('(') && !self.probability.contains(',')
        &&& self.probability.len() > 0 ==> !is_white_space(self.probability[0])
        &&& !self.fields.contains(',')
    }
}

/// The text of the pieces of a path.
pub open spec fn piece_texts(pieces: Seq<WrittenPiece>) -> Seq<Seq<char>> {
    pieces.map_values(|piece: WrittenPiece| piece.text())
}

/// A line of the log: the time, any words, the starting node and the path.
pub open spec fn written_line(
    time: Seq<char>,
    words: Seq<char>,
    node: Seq<char>,
    pieces: Seq<WrittenPiece>,
) -> Seq<char> {
    time + words + " - start at "@ + (node + seq![' '] + join(piece_texts(pieces), ','))
}

/// Whether the words between the time and the starting node keep to the form of the log: a space
/// sets them off, and they do not announce the starting node themselves.
pub open spec fn are_free_words(time: Seq<char>, words: Seq<char>) -> bool {
    &&& words.len() > 0 ==> words[0] == ' '
    &&& find(time + words + " - start at "@, " - start at "@) == Some((time + words).len() as int)
}

/// Whether a line keeps to the form of the log.
pub open spec fn is_log_line(
    time: Seq<char>,
    words: Seq<char>,
    node: Seq<char>,
    pieces: Seq<WrittenPiece>,
) -> bool {
    &&& !time.contains(' ') && !node.contains(' ')
    &&& are_free_words(time, words)
    &&& pieces.len() > 0
    &&& forall|i: int| 0 <= i < pieces.len() ==> (#[trigger] pieces[i]).is_in_form()
}

/// Other words, other probabilities and other white space give the same probe, or none as before:
/// whatever the texts of the time, of the starting node and behind the brackets are.
pub proof fn law_wording_is_not_read(
    time: Seq<char>,
    node: Seq<char>,
    words: Seq<char>,
    pieces: Seq<WrittenPiece>,
    other_words: Seq<char>,
    other_pieces: Seq<WrittenPiece>,
)
    requires
        is_log_line(time, words, node, pieces),
        is_log_line(time, other_words, node, other_pieces),
        ({
            let line = written_line(time, words, node, pieces);
            let other = written_line(time, other_words, node, other_pieces);
            let duplicate = "unknown path success prob, probably had a duplicate"@;
            let first_hop = "path failed at first hop"@;
            &&& !contains(line, duplicate) && !contains(line, first_hop)
            &&& !contains(other, duplicate) && !contains(other, first_hop)
        }),
        pieces.len() == other_pieces.len(),
        forall|i: int|
            0 <= i < pieces.len() ==> (#[trigger] pieces[i]).fields == other_pieces[i].fields
                && pieces[i].marked() == other_pieces[i].marked(),
    ensures
        probe_of(written_line(time, words, node, pieces)) == probe_of(
            written_line(time, other_words, node, other_pieces),
        ),
{
    lemma_line_parts(time, words, node, pieces);
    lemma_line_parts(time, other_words, node, other_pieces);
    let (a, b) = (piece_texts(pieces), piece_texts(other_pieces));
    assert forall|i: int| 0 <= i < a.len() implies bracket_text(#[trigger] a[i]) == bracket_text(
        b[i],
    ) && is_marked(a[i]) == is_marked(b[i]) by {
        assert(pieces[i].fields == other_pieces[i].fields);
        assert(other_pieces[i].is_in_form());
        lemma_piece_parts(pieces[i]);
        lemma_piece_parts(other_pieces[i]);
    }
    law_nothing_else_is_read(
        written_line(time, words, node, pieces),
        written_line(time, other_words, node, other_pieces),
    );
}

/// What is written behind the opening bracket of a hop.
pub open spec fn written_fields(channel: ParsedChannel) -> Seq<char> {
    decimal_of(channel.amount as nat) + " msat on "@ + decimal_of(channel.scid as nat) + seq![')']
}

/// A line of the log is read back: its time, its starting node, and its hops in their order, those
/// that passed the probe on and the one that refused it. It is read wherever no text that marks a
/// line as without use stands in its words or in a probability.
pub proof fn law_written_line_is_read_back(
    timestamp: u64,
    words: Seq<char>,
    node: Seq<u8>,
    pieces: Seq<WrittenPiece>,
    hops: Seq<LoggedHop>,
)
    requires
        node.len() == NODE_ID_LEN,
        is_log_line(decimal_of(timestamp as nat), words, hex_of(node), pieces),
        hops.len() == pieces.len(),
        forall|i: int|
            0 <= i < hops.len() ==> pieces[i].fields == written_fields((#[trigger] hops[i]).channel)
                && pieces[i].marked() == hops[i].failed,
        channels_where(hops, true).len() <= 1,
        !contains(words, "unknown path success prob, probably had a duplicate"@),
        !contains(words, "path failed at first hop"@),
        forall|i: int|
            0 <= i < pieces.len() ==> !contains(
                (#[trigger] pieces[i]).probability,
                "path failed at first hop"@,
            ),
    ensures
        probe_of(written_line(decimal_of(timestamp as nat), words, hex_of(node), pieces)) == Some(
            ParsedProbeView {
                timestamp,
                starting_node: node,
                passed_chans: channels_where(hops, false),
                failed_chan: if channels_where(hops, true).len() == 1 {
                    Some(channels_where(hops, true)[0])
                } else {
                    None
                },
            },
        ),
{
    let texts = piece_texts(pieces);
    lemma_line_parts(decimal_of(timestamp as nat), words, hex_of(node), pieces);
    lemma_line_is_unmarked(timestamp, words, node, pieces, hops);
    law_number_is_read_back(timestamp);
    law_node_id_is_read_back(node);
    assert forall|i: int| 0 <= i < texts.len() implies hop_of(#[trigger] texts[i]) == Some(
        hops[i],
    ) by {
        assert(pieces[i].fields == written_fields(hops[i].channel));
        lemma_piece_parts(pieces[i]);
        lemma_written_fields(hops[i].channel);
    }
    assert(hops_of(texts) =~= hops);
}

/// An occurrence of text that does not hold a character lies on one side of it.
proof fn lemma_occurs_beside(a: Seq<char>, c: char, b: Seq<char>, text: Seq<char>)
    requires
        !text.contains(c),
        contains(a + seq![c] + b, text),
    ensures
        contains(a, text) || contains(b, text),
{
    let whole = a + seq![c] + b;
    law_first_occurrence_is_found(whole, text);
    law_first_occurrence_is_found(a, text);
    law_first_occurrence_is_found(b, text);
    let j = find(whole, text)->0;
    let (n, m) = (a.len() as int, text.len() as int);
    if j + m <= n {
        assert(a.subrange(j, j + m) =~= whole.subrange(j, j + m));
    } else if j > n {
        assert(b.subrange(j - n - 1, j - n - 1 + m) =~= whole.subrange(j, j + m));
    } else {
        assert(whole.subrange(j, j + m)[n - j] == c);
        assert(text[n - j] == c);
    }
}

/// An occurrence of text does not begin where its first character is not.
proof fn lemma_occurs_behind(a: Seq<char>, b: Seq<char>, text: Seq<char>)
    requires
        text.len() > 0,
        !a.contains(text[0]),
        contains(a + b, text),
    ensures
        contains(b, text),
{
    let whole = a + b;
    law_first_occurrence_is_found(whole, text);
    law_first_occurrence_is_found(b, text);
    let j = find(whole, text)->0;
    let (n, m) = (a.len() as int, text.len() as int);
    assert(whole.subrange(j, j + m)[0] == whole[j]);
    if j < n {
        assert(a[j] == text[0]);
    }
    assert(b.subrange(j - n, j - n + m) =~= whole.subrange(j, j + m));
}

/// An occurrence of text does not end where its last character is not.
proof fn lemma_occurs_before(a: Seq<char>, b: Seq<char>, text: Seq<char>)
    requires
        text.len() > 0,
        !b.contains(text.last()),
        contains(a + b, text),
    ensures
        contains(a, text),
{
    let whole = a + b;
    law_first_occurrence_is_found(whole, text);
    law_first_occurrence_is_found(a, text);
    let j = find(whole, text)->0;
    let (n, m) = (a.len() as int, text.len() as int);
    assert(whole.subrange(j, j + m)[m - 1] == whole[j + m - 1]);
    if j + m > n {
        assert(b[j + m - 1 - n] == text.last());
    }
    assert(a.subrange(j, j + m) =~= whole.subrange(j, j + m));
}

/// Text that occurs is made of characters that occur.
proof fn lemma_occurs_char(whole: Seq<char>, text: Seq<char>, i: int)
    requires
        contains(whole, text),
        0 <= i < text.len(),
    ensures
        whole.contains(text[i]),
{
    law_first_occurrence_is_found(whole, text);
    let j = find(whole, text)->0;
    assert(whole.subrange(j, j + text.len())[i] == whole[j + i]);
}

/// The characters of what is written behind the opening bracket.
proof fn lemma_field_chars(channel: ParsedChannel)
    ensures
        forall|i: int|
            0 <= i < written_fields(channel).len() ==> {
                let c = #[trigger] written_fields(channel)[i];
                c != 'p' && c != 'u' && c != '('
            },
{
    lemma_decimal_of(channel.amount as nat);
    lemma_decimal_of(channel.scid as nat);
    reveal_strlit(" msat on ");
}

/// A text that marks a line as without use stands in a path only where it stands in a probability.
proof fn lemma_path_is_unmarked(pieces: Seq<WrittenPiece>, hops: Seq<LoggedHop>)
    requires
        hops.len() == pieces.len() > 0,
        forall|i: int| 0 <= i < pieces.len() ==> (#[trigger] pieces[i]).is_in_form(),
        forall|i: int|
            0 <= i < hops.len() ==> pieces[i].fields == written_fields(
                (#[trigger] hops[i]).channel,
            ),
        forall|i: int|
            0 <= i < pieces.len() ==> !contains(
                (#[trigger] pieces[i]).probability,
                "path failed at first hop"@,
            ),
    ensures
        !contains(join(piece_texts(pieces), ','), "path failed at first hop"@),
        !contains(
            join(piece_texts(pieces), ','),
            "unknown path success prob, probably had a duplicate"@,
        ),
    decreases pieces.len(),
{
    let first_hop = "path failed at first hop"@;
    let duplicate = "unknown path success prob, probably had a duplicate"@;
    reveal_strlit("path failed at first hop");
    reveal_strlit("unknown path success prob, probably had a duplicate");
    let texts = piece_texts(pieces);
    let piece = pieces[0];
    let front = piece.lead + piece.probability;
    assert(piece.is_in_form());
    assert(piece.fields == written_fields(hops[0].channel));
    assert(texts[0] == piece.text());
    assert(texts[0] =~= front + seq!['('] + piece.fields);
    lemma_field_chars(hops[0].channel);
    assert(duplicate[25] == ',');

    let rest = pieces.skip(1);
    let behind = if pieces.len() == 1 {
        Seq::empty()
    } else {
        seq![','] + join(piece_texts(rest), ',')
    };
    assert(piece_texts(rest) =~= texts.skip(1));
    let path = join(texts, ',');
    assert(path =~= front + seq!['('] + (piece.fields + behind));
    if pieces.len() > 1 {
        assert(forall|i: int| 0 <= i < rest.len() ==> #[trigger] rest[i] == pieces[i + 1]);
        let tail_hops = hops.skip(1);
        assert forall|i: int| 0 <= i < tail_hops.len() implies rest[i].fields == written_fields(
            (#[trigger] tail_hops[i]).channel,
        ) by {
            assert(tail_hops[i] == hops[i + 1]);
        }
        lemma_path_is_unmarked(rest, tail_hops);
    }
    if contains(path, first_hop) {
        lemma_occurs_beside(front, '(', piece.fields + behind, first_hop);
        if contains(front, first_hop) {
            assert(!piece.lead.contains('p'));
            lemma_occurs_behind(piece.lead, piece.probability, first_hop);
        } else {
            lemma_occurs_behind(piece.fields, behind, first_hop);
            lemma_tail_is_unmarked(rest, behind, first_hop);
        }
    }
    if contains(path, duplicate) {
        lemma_occurs_beside(front, '(', piece.fields + behind, duplicate);
        if contains(front, duplicate) {
            lemma_occurs_char(front, duplicate, 25);
            assert(!piece.lead.contains(','));
        } else {
            lemma_occurs_behind(piece.fields, behind, duplicate);
            lemma_tail_is_unmarked(rest, behind, duplicate);
        }
    }
}

proof fn lemma_tail_is_unmarked(rest: Seq<WrittenPiece>, behind: Seq<char>, text: Seq<char>)
    requires
        text.len() > 0 && text[0] != ',',
        contains(behind, text),
        behind == Seq::<char>::empty() || behind == seq![','] + join(piece_texts(rest), ','),
    ensures
        contains(join(piece_texts(rest), ','), text),
{
    if behind == Seq::<char>::empty() {
        lemma_occurs_char(behind, text, 0);
    } else {
        lemma_occurs_behind(seq![','], join(piece_texts(rest), ','), text);
    }
}

/// A text that marks a line as without use stands in a line only where it stands in the words or in
/// a probability.
proof fn lemma_line_is_unmarked(
    timestamp: u64,
    words: Seq<char>,
    node: Seq<u8>,
    pieces: Seq<WrittenPiece>,
    hops: Seq<LoggedHop>,
)
    requires
        node.len() == NODE_ID_LEN,
        is_log_line(decimal_of(timestamp as nat), words, hex_of(node), pieces),
        hops.len() == pieces.len(),
        forall|i: int|
            0 <= i < hops.len() ==> pieces[i].fields == written_fields(
                (#[trigger] hops[i]).channel,
            ),
        !contains(words, "unknown path success prob, probably had a duplicate"@),
        !contains(words, "path failed at first hop"@),
        forall|i: int|
            0 <= i < pieces.len() ==> !contains(
                (#[trigger] pieces[i]).probability,
                "path failed at first hop"@,
            ),
    ensures
        !is_ignored(written_line(decimal_of(timestamp as nat), words, hex_of(node), pieces)),
{
    let time = decimal_of(timestamp as nat);
    let path = join(piece_texts(pieces), ',');
    let line = written_line(time, words, hex_of(node), pieces);
    let first_hop = "path failed at first hop"@;
    let duplicate = "unknown path success prob, probably had a duplicate"@;
    reveal_strlit("path failed at first hop");
    reveal_strlit("unknown path success prob, probably had a duplicate");
    reveal_strlit(" - start at ");
    lemma_decimal_of(timestamp as nat);
    law_node_id_is_read_back(node);
    lemma_path_is_unmarked(pieces, hops);
    let space = seq![' '];
    let announced = seq![' ', 's', 't', 'a', 'r', 't', ' ', 'a', 't', ' '] + hex_of(node) + space;
    assert(line =~= (time + words + space) + seq!['-'] + (announced + path));
    assert forall|i: int| 0 <= i < announced.len() implies #[trigger] announced[i] != 'p'
        && announced[i] != 'u' by {
        if 10 <= i < 10 + hex_of(node).len() {
            assert(is_hex_digit(hex_of(node)[i - 10]));
        }
    }
    if contains(line, first_hop) {
        lemma_occurs_beside(time + words + space, '-', announced + path, first_hop);
        if contains(time + words + space, first_hop) {
            lemma_occurs_before(time + words, space, first_hop);
            lemma_occurs_behind(time, words, first_hop);
        } else {
            lemma_occurs_behind(announced, path, first_hop);
        }
    }
    if contains(line, duplicate) {
        lemma_occurs_beside(time + words + space, '-', announced + path, duplicate);
        if contains(time + words + space, duplicate) {
            lemma_occurs_before(time + words, space, duplicate);
            lemma_occurs_behind(time, words, duplicate);
        } else {
            lemma_occurs_behind(announced, path, duplicate);
        }
    }
}

/// What is read of a line is what was written.
proof fn lemma_line_parts(
    time: Seq<char>,
    words: Seq<char>,
    node: Seq<char>,
    pieces: Seq<WrittenPiece>,
)
    requires
        is_log_line(time, words, node, pieces),
    ensures
        ({
            let line = written_line(time, words, node, pieces);
            let path = join(piece_texts(pieces), ',');
            &&& timestamp_text(line) == Some(time)
            &&& route_of(line) == Some((node, path))
            &&& split(path, ',') == piece_texts(pieces)
        }),
{
    let texts = piece_texts(pieces);
    lemma_parts(time, words, node, join(texts, ','));
    assert forall|i: int| 0 <= i < texts.len() implies !(#[trigger] texts[i]).contains(',') by {
        lemma_piece_parts(pieces[i]);
    }
    law_joined_pieces_are_split(texts, ',');
}

/// The time, the starting node and the path of a line.
proof fn lemma_parts(time: Seq<char>, words: Seq<char>, node: Seq<char>, path: Seq<char>)
    requires
        !time.contains(' ') && !node.contains(' '),
        are_free_words(time, words),
    ensures
        ({
            let line = time + words + " - start at "@ + (node + seq![' '] + path);
            &&& timestamp_text(line) == Some(time)
            &&& timestamp_of(line) == unsigned_number(time)
            &&& route_of(line) == Some((node, path))
        }),
{
    let head = time + words;
    let marker = " - start at "@;
    let useful = node + seq![' '] + path;
    let line = head + marker + useful;
    reveal_strlit(" - start at ");
    let behind = (words + marker + useful).skip(1);
    assert(line =~= time + seq![' '] + behind);
    lemma_split_at(time, ' ', behind);

    let n = head.len() as int;
    lemma_find_from(head + marker, marker, 0);
    assert(line.subrange(n, n + marker.len()) =~= marker);
    assert forall|j: int| 0 <= j < n implies #[trigger] line.subrange(j, j + marker.len())
        != marker by {
        assert(line.subrange(j, j + marker.len()) =~= (head + marker).subrange(
            j,
            j + marker.len(),
        ));
    }
    lemma_find_is(line, marker, n);
    assert(line.skip(n + marker.len()) =~= useful);
    lemma_split_at(node, ' ', path);
}

/// What is read of a piece is what was written.
proof fn lemma_piece_parts(piece: WrittenPiece)
    requires
        piece.is_in_form(),
    ensures
        bracket_text(piece.text()) == Some(piece.fields),
        is_marked(piece.text()) == piece.marked(),
        !piece.text().contains(','),
{
    lemma_opened(piece.lead, piece.probability, piece.fields);
    assert(!piece.lead.contains(','));
}

/// What is written behind the opening bracket is read back.
proof fn lemma_written_fields(channel: ParsedChannel)
    ensures
        ({
            let words = split(written_fields(channel), ' ');
            &&& words.len() == 4
            &&& unsigned_number(words[0]) == Some(channel.amount)
            &&& words[1] == "msat"@ && words[2] == "on"@
            &&& unsigned_number(without_suffix(words[3], ')')) == Some(channel.scid)
        }),
{
    let amount = decimal_of(channel.amount as nat);
    let scid = decimal_of(channel.scid as nat);
    lemma_decimal_of(channel.amount as nat);
    lemma_decimal_of(channel.scid as nat);
    law_number_is_read_back(channel.amount);
    law_number_is_read_back(channel.scid);
    reveal_strlit(" msat on ");
    reveal_strlit("msat");
    reveal_strlit("on");
    let words = seq![amount, "msat"@, "on"@, scid + seq![')']];
    assert(words.skip(1).skip(1).skip(1) =~= seq![scid + seq![')']]);
    reveal_with_fuel(join, 5);
    assert(join(words, ' ') =~= written_fields(channel));
    assert(!words[0].contains(' '));
    assert(!words[1].contains(' '));
    assert(!words[2].contains(' '));
    assert(!words[3].contains(' '));
    law_joined_pieces_are_split(words, ' ');
    assert(without_suffix(words[3], ')') =~= scid);
}

/// The channels of one kind among the first `n` of some hops come first among those of all.
proof fn lemma_channels_where_grows(hops: Seq<LoggedHop>, n: int, failed: bool)
    requires
        0 <= n <= hops.len(),
    ensures
        channels_where(hops.take(n), failed).len() <= channels_where(hops, failed).len(),
    decreases hops.len() - n,
{
    if n == hops.len() {
        assert(hops.take(n) == hops);
    } else {
        lemma_channels_where_push(hops.take(n), hops[n], failed);
        assert(hops.take(n + 1) == hops.take(n).push(hops[n]));
        lemma_channels_where_grows(hops, n + 1, failed);
    }
}

/// What a logged probe says is what its fields hold.
pub proof fn law_parsed_probe_says_its_fields(parsed: ParsedProbeResult)
    ensures
        parsed@.timestamp == parsed.timestamp,
        parsed@.starting_node == parsed.starting_node.bytes@,
        parsed@.passed_chans == parsed.passed_chans@,
        parsed@.failed_chan == parsed.failed_chan,
{
}

/// A line is ignored exactly where one of two texts stands somewhere in it.
pub proof fn law_only_marked_lines_are_ignored(line: Seq<char>)
    ensures
        is_ignored(line) <==> ({
            let duplicate = "unknown path success prob, probably had a duplicate"@;
            let first_hop = "path failed at first hop"@;
            ||| exists|j: int|
                0 <= j && j + duplicate.len() <= line.len() && #[trigger] line.subrange(
                    j,
                    j + duplicate.len(),
                ) == duplicate
            ||| exists|j: int|
                0 <= j && j + first_hop.len() <= line.len() && #[trigger] line.subrange(
                    j,
                    j + first_hop.len(),
                ) == first_hop
        }),
{
    law_first_occurrence_is_found(
        line,
        "unknown path success prob, probably had a duplicate"@,
    );
    law_first_occurrence_is_found(line, "path failed at first hop"@);
}

/// One more hop at the end of a path adds its channel to those that passed the probe on or to those
/// that refused it, behind the others, and leaves the rest as they are.
pub proof fn law_channels_keep_their_order(hops: Seq<LoggedHop>, hop: LoggedHop)
    ensures
        channels_where(Seq::empty(), true) == Seq::<ParsedChannel>::empty(),
        channels_where(Seq::empty(), false) == Seq::<ParsedChannel>::empty(),
        channels_where(hops.push(hop), hop.failed) == channels_where(hops, hop.failed).push(
            hop.channel,
        ),
        channels_where(hops.push(hop), !hop.failed) == channels_where(hops, !hop.failed),
{
    reveal(Seq::filter);
    lemma_channels_where_push(hops, hop, true);
    lemma_channels_where_push(hops, hop, false);
    assert(channels_where(Seq::empty(), true) =~= Seq::<ParsedChannel>::empty());
    assert(channels_where(Seq::empty(), false) =~= Seq::<ParsedChannel>::empty());
}

/// How many hops failed tells which ones did.
proof fn lemma_failed_hops(hops: Seq<LoggedHop>)
    ensures
        ({
            let failed = channels_where(hops, true);
            &&& failed.len() == 0 ==> forall|i: int|
                0 <= i < hops.len() ==> !(#[trigger] hops[i]).failed
            &&& failed.len() == 1 ==> exists|i: int|
                0 <= i < hops.len() && (#[trigger] hops[i]).failed && hops[i].channel == failed[0]
                    && forall|j: int| 0 <= j < hops.len() && (#[trigger] hops[j]).failed ==> j == i
            &&& failed.len() >= 2 ==> exists|i: int, j: int|
                0 <= i < j < hops.len() && (#[trigger] hops[i]).failed && (
                #[trigger] hops[j]).failed
        }),
    decreases hops.len(),
{
    if hops.len() == 0 {
        reveal(Seq::filter);
    } else {
        let earlier = hops.drop_last();
        let n = earlier.len() as int;
        lemma_failed_hops(earlier);
        assert(hops == earlier.push(hops.last()));
        lemma_channels_where_push(earlier, hops.last(), true);
        assert(forall|i: int| 0 <= i < n ==> #[trigger] earlier[i] == hops[i]);
        let before = channels_where(earlier, true);
        if before.len() == 1 {
            let i = choose|i: int|
                0 <= i < earlier.len() && (#[trigger] earlier[i]).failed && earlier[i].channel
                    == before[0] && forall|j: int|
                    0 <= j < earlier.len() && (#[trigger] earlier[j]).failed ==> j == i;
            assert(hops[i].failed);
            assert forall|j: int| 0 <= j < n && (#[trigger] hops[j]).failed implies j == i by {
                assert(earlier[j].failed);
            }
            assert(hops[n] == hops.last());
        } else if before.len() >= 2 {
            let (i, j) = choose|i: int, j: int|
                0 <= i < j < earlier.len() && (#[trigger] earlier[i]).failed && (
                #[trigger] earlier[j]).failed;
            assert(hops[i].failed && hops[j].failed);
        } else {
            assert forall|j: int| 0 <= j < n implies !(#[trigger] hops[j]).failed by {
                assert(!earlier[j].failed);
            }
            assert(hops[n] == hops.last());
        }
    }
}

/// A line is read part by part: the time up to the first space, the starting node behind the words
/// that announce it, and the pieces of the path between commas. It describes a probe exactly where
/// it is not marked as without use, every part can be read and at most one hop failed; then the
/// probe says what the parts say.
pub proof fn law_line_is_read_part_by_part(
    time: Seq<char>,
    words: Seq<char>,
    node: Seq<char>,
    pieces: Seq<Seq<char>>,
)
    requires
        !time.contains(' '),
        words.len() > 0 ==> words[0] == ' ',
        forall|j: int|
            0 <= j < time.len() + words.len() ==> #[trigger] (time + words
                + " - start at "@).subrange(j, j + " - start at "@.len()) != " - start at "@,
        !node.contains(' '),
        pieces.len() > 0,
        forall|i: int| 0 <= i < pieces.len() ==> !(#[trigger] pieces[i]).contains(','),
    ensures
        ({
            let line = time + words + " - start at "@ + (node + seq![' '] + join(pieces, ','));
            let marked = contains(line, "unknown path success prob, probably had a duplicate"@)
                || contains(line, "path failed at first hop"@);
            match probe_of(line) {
                Some(probe) => {
                    &&& !marked
                    &&& unsigned_number(time) == Some(probe.timestamp)
                    &&& node_id_of(node) == Some(probe.starting_node)
                    &&& forall|i: int| 0 <= i < pieces.len() ==> hop_of(#[trigger] pieces[i]) is Some
                    &&& probe.passed_chans == channels_where(
                        Seq::new(pieces.len(), |i: int| hop_of(pieces[i])->0),
                        false,
                    )
                    &&& match probe.failed_chan {
                        Some(channel) => exists|i: int|
                            0 <= i < pieces.len() && (hop_of(#[trigger] pieces[i])->0).failed && (
                            hop_of(pieces[i])->0).channel == channel && forall|j: int|
                                0 <= j < pieces.len() && (hop_of(#[trigger] pieces[j])->0).failed
                                    ==> j == i,
                        None => forall|i: int|
                            0 <= i < pieces.len() ==> !(hop_of(#[trigger] pieces[i])->0).failed,
                    }
                },
                None => {
                    ||| marked
                    ||| unsigned_number(time) is None
                    ||| node_id_of(node) is None
                    ||| exists|i: int| 0 <= i < pieces.len() && hop_of(#[trigger] pieces[i]) is None
                    ||| exists|i: int, j: int|
                        0 <= i < j < pieces.len() && (hop_of(#[trigger] pieces[i])->0).failed && (
                        hop_of(#[trigger] pieces[j])->0).failed
                },
            }
        }),
{
    let path = join(pieces, ',');
    let line = time + words + " - start at "@ + (node + seq![' '] + path);
    let head = time + words;
    let marker = " - start at "@;
    reveal_strlit(" - start at ");
    let n = head.len() as int;
    assert((head + marker).subrange(n, n + marker.len()) =~= marker);
    lemma_find_is(head + marker, marker, n);
    lemma_parts(time, words, node, path);
    law_joined_pieces_are_split(pieces, ',');
    let hops = hops_of(pieces);
    lemma_failed_hops(hops);
    assert(forall|i: int| 0 <= i < pieces.len() ==> #[trigger] hops[i] == hop_of(pieces[i])->0);
    let failed = channels_where(hops, true);
    if failed.len() == 1 {
        let i = choose|i: int|
            0 <= i < hops.len() && (#[trigger] hops[i]).failed && hops[i].channel == failed[0]
                && forall|j: int| 0 <= j < hops.len() && (#[trigger] hops[j]).failed ==> j == i;
        assert((hop_of(pieces[i])->0).failed);
        assert forall|j: int| 0 <= j < pieces.len() && (hop_of(#[trigger] pieces[j])->0).failed
            implies j == i by {
            assert(hops[j].failed);
        }
    } else if failed.len() >= 2 {
        let (i, j) = choose|i: int, j: int|
            0 <= i < j < hops.len() && (#[trigger] hops[i]).failed && (#[trigger] hops[j]).failed;
        assert((hop_of(pieces[i])->0).failed && (hop_of(pieces[j])->0).failed);
    } else {
        assert forall|j: int| 0 <= j < pieces.len() implies !(hop_of(
            #[trigger] pieces[j],
        )->0).failed by {
            assert(!hops[j].failed);
        }
    }
}

/// A line that lacks a part describes no probe: a space, the words that announce the starting node,
/// or a space behind the starting node.
pub proof fn law_line_without_a_part_is_not_read(line: Seq<char>, head: Seq<char>, node: Seq<char>)
    ensures
        !line.contains(' ') ==> probe_of(line) is None,
        !contains(line, " - start at "@) ==> probe_of(line) is None,
        line == head + " - start at "@ + node && !node.contains(' ') && (forall|j: int|
            0 <= j < head.len() ==> #[trigger] line.subrange(j, j + " - start at "@.len())
                != " - start at "@) ==> probe_of(line) is None,
{
    let space = seq![' '];
    let marker = " - start at "@;
    law_first_occurrence_is_found(line, space);
    if let Some(i) = find(line, space) {
        assert(line.subrange(i, i + 1)[0] == line[i]);
        assert(space[0] == ' ');
    }
    if line == head + marker + node && !node.contains(' ') && (forall|j: int|
        0 <= j < head.len() ==> #[trigger] line.subrange(j, j + marker.len()) != marker) {
        let n = head.len() as int;
        assert(line.subrange(n, n + marker.len()) =~= marker);
        lemma_find_is(line, marker, n);
        assert(line.skip(n + marker.len()) =~= node);
        law_first_occurrence_is_found(node, space);
        if let Some(i) = find(node, space) {
            assert(node.subrange(i, i + 1)[0] == node[i]);
            assert(space[0] == ' ');
        }
    }
}

/// A piece of a path is read part by part: behind the opening bracket an amount, two fixed words and
/// the channel, which one closing bracket may follow. It describes a hop exactly where the words are
/// those and both numbers can be read; then the hop has that channel and that amount, and failed
/// exactly where the piece begins with `inv` and a space.
pub proof fn law_piece_is_read_part_by_part(
    lead: Seq<char>,
    probability: Seq<char>,
    amount: Seq<char>,
    unit: Seq<char>,
    on: Seq<char>,
    scid: Seq<char>,
    rest: Seq<char>,
)
    requires
        forall|i: int| 0 <= i < lead.len() ==> is_white_space(#[trigger] lead[i]),
        probability.len() > 0 ==> !is_white_space(probability[0]),
        !probability.contains('('),
        !amount.contains(' ') && !unit.contains(' ') && !on.contains(' ') && !scid.contains(' '),
        rest.len() > 0 ==> rest[0] == ' ',
    ensures
        ({
            let space = seq![' '];
            let fields = amount + space + (unit + space + (on + space + (scid + rest)));
            let channel = if scid.len() > 0 && scid.last() == ')' {
                scid.drop_last()
            } else {
                scid
            };
            hop_of(lead + (probability + seq!['('] + fields)) == match (
                unsigned_number(amount),
                unsigned_number(channel),
            ) {
                (Some(msat), Some(id)) if unit == "msat"@ && on == "on"@ => Some(
                    LoggedHop {
                        failed: "inv "@.is_prefix_of(probability),
                        channel: ParsedChannel { scid: id, amount: msat },
                    },
                ),
                _ => None,
            }
        }),
{
    let space = seq![' '];
    let fields = amount + space + (unit + space + (on + space + (scid + rest)));
    lemma_opened(lead, probability, fields);
    law_first_piece_ends_at_separator(amount, unit + space + (on + space + (scid + rest)), ' ');
    law_first_piece_ends_at_separator(unit, on + space + (scid + rest), ' ');
    law_first_piece_ends_at_separator(on, scid + rest, ' ');
    let last = split(scid + rest, ' ');
    if rest.len() > 0 {
        assert(scid + rest =~= scid + space + rest.skip(1));
        law_first_piece_ends_at_separator(scid, rest.skip(1), ' ');
    } else {
        assert(scid + rest =~= scid);
        law_first_piece_ends_at_separator(scid, rest, ' ');
    }
    assert(last.len() > 0 && last[0] == scid);
    let words = split(fields, ' ');
    assert(words == seq![amount] + (seq![unit] + (seq![on] + last)));
    assert(words[0] == amount && words[1] == unit && words[2] == on && words[3] == scid);
}

/// A piece without an opening bracket, or with fewer than four words behind it, describes no hop.
pub proof fn law_piece_without_a_part_is_not_read(
    piece: Seq<char>,
    lead: Seq<char>,
    probability: Seq<char>,
    a: Seq<char>,
    b: Seq<char>,
    c: Seq<char>,
)
    requires
        forall|i: int| 0 <= i < lead.len() ==> is_white_space(#[trigger] lead[i]),
        probability.len() > 0 ==> !is_white_space(probability[0]),
        !probability.contains('('),
        !a.contains(' ') && !b.contains(' ') && !c.contains(' '),
    ensures
        !piece.contains('(') ==> hop_of(piece) is None,
        hop_of(lead + (probability + seq!['('] + a)) is None,
        hop_of(lead + (probability + seq!['('] + (a + seq![' '] + b))) is None,
        hop_of(lead + (probability + seq!['('] + (a + seq![' '] + (b + seq![' '] + c)))) is None,
{
    let trimmed = trim_start(piece);
    law_trimmed_text_follows_white_space(piece);
    law_first_occurrence_is_found(trimmed, seq!['(']);
    if let Some(i) = find(trimmed, seq!['(']) {
        assert(trimmed.subrange(i, i + 1)[0] == trimmed[i]);
        assert(seq!['('][0] == '(');
        assert(piece[piece.len() - trimmed.len() + i] == '(');
    }
    lemma_opened(lead, probability, a);
    lemma_opened(lead, probability, a + seq![' '] + b);
    lemma_opened(lead, probability, a + seq![' '] + (b + seq![' '] + c));
    law_first_piece_ends_at_separator(a, b, ' ');
    law_first_piece_ends_at_separator(b, c, ' ');
    law_first_piece_ends_at_separator(c, c, ' ');
    law_first_piece_ends_at_separator(a, b + seq![' '] + c, ' ');
}

/// A piece is opened at its first opening bracket.
proof fn lemma_opened(lead: Seq<char>, probability: Seq<char>, fields: Seq<char>)
    requires
        forall|i: int| 0 <= i < lead.len() ==> is_white_space(#[trigger] lead[i]),
        probability.len() > 0 ==> !is_white_space(probability[0]),
        !probability.contains('('),
    ensures
        ({
            let text = probability + seq!['('] + fields;
            &&& trim_start(lead + text) == text
            &&& split_once(text, seq!['(']) == Some((probability, fields))
            &&& "inv "@.is_prefix_of(text) <==> "inv "@.is_prefix_of(probability)
        }),
{
    let text = probability + seq!['('] + fields;
    assert(text[0] == if probability.len() > 0 {
        probability[0]
    } else {
        '('
    });
    lemma_trim_start(lead, text);
    lemma_split_at(probability, '(', fields);
    reveal_strlit("inv ");
    if probability.len() >= 4 {
        assert(text.subrange(0, 4) =~= probability.subrange(0, 4));
    } else if text.len() >= 4 {
        let n = probability.len() as int;
        assert(text.subrange(0, 4)[n] == '(');
        assert("inv "@[n] != '(');
    }
}

/// The channels of a path: those that passed the probe on, and the one that refused it, if any did.
pub struct LoggedPath {
    pub passed_chans: Vec<ParsedChannel>,
    pub failed_chan: Option<ParsedChannel>,
}

/// Reads the hops of a path, which commas separate.
pub fn parse_path(path: &[char]) -> (parsed: Option<LoggedPath>)
    ensures
        parsed is Some <==> {
            let pieces = split(path@, ',');
            all_hops(pieces) && channels_where(hops_of(pieces), true).len() <= 1
        },
        parsed matches Some(p) ==> {
            let hops = hops_of(split(path@, ','));
            &&& p.passed_chans@ == channels_where(hops, false)
            &&& p.failed_chan == if channels_where(hops, true).len() == 1 {
                Some(channels_where(hops, true)[0])
            } else {
                None
            }
        },
{
    let pieces = split_chars(path, ',');
    let ghost texts = split(path@, ',');
    let ghost hops = hops_of(texts);
    let mut passed_chans: Vec<ParsedChannel> = Vec::new();
    let mut failed_chan: Option<ParsedChannel> = None;
    let mut i: usize = 0;
    proof {
        reveal(Seq::filter);
        assert(channels_where(hops.take(0), false) =~= Seq::empty());
        assert(channels_where(hops.take(0), true) =~= Seq::empty());
    }
    while i < pieces.len()
        invariant
            i <= pieces@.len() == texts.len() == hops.len(),
            texts == split(path@, ','),
            hops == hops_of(texts),
            forall|j: int| 0 <= j < pieces@.len() ==> (#[trigger] pieces@[j])@ == texts[j],
            forall|j: int| 0 <= j < i ==> hop_of(#[trigger] texts[j]) is Some,
            passed_chans@ == channels_where(hops.take(i as int), false),
            match failed_chan {
                Some(chan) => channels_where(hops.take(i as int), true) == seq![chan],
                None => channels_where(hops.take(i as int), true).len() == 0,
            },
        decreases pieces@.len() - i,
    {
        match parse_hop(pieces[i]) {
            Some(hop) => {
                proof {
                    assert(pieces@[i as int]@ == texts[i as int]);
                    assert(hops[i as int] == hop);
                    assert(hops.take(i + 1) == hops.take(i as int).push(hop));
                    lemma_channels_where_push(hops.take(i as int), hop, true);
                    lemma_channels_where_push(hops.take(i as int), hop, false);
                }
                if hop.failed {
                    if failed_chan.is_some() {
                        proof {
                            lemma_channels_where_grows(hops, i + 1, true);
                        }
                        return None;
                    }
                    failed_chan = Some(hop.channel);
                    assert(channels_where(hops.take(i + 1), true) =~= seq![hop.channel]);
                } else {
                    passed_chans.push(hop.channel);
                }
            },
            None => {
                assert(pieces@[i as int]@ == texts[i as int]);
                assert(hop_of(texts[i as int]) is None);
                return None;
            },
        }
        i = i + 1;
    }
    assert(hops.take(i as int) == hops);
    Some(LoggedPath { passed_chans, failed_chan })
}

/// Reads one line of the probe log.
///
/// The result is `None` for a line that the log marks as without use, and for one that does not
/// have the form of a probe. [`is_ignored_line`] tells the two apart.
pub fn parse_probe(line: &str) -> (probe: Option<ParsedProbeResult>)
    ensures
        match probe {
            Some(parsed) => probe_of(line@) == Some(parsed@),
            None => probe_of(line@) is None,
        },
{
    if is_ignored_line(line) {
        return None;
    }
    let chars = chars_of(line);
    let space: Vec<char> = vec![' '];
    assert(space@ == seq![' ']);
    let timestamp = match split_chars_once(chars.as_slice(), space.as_slice()) {
        Some((head, _)) => parse_number(head),
        None => None,
    };
    let marker = chars_of(" - start at ");
    match (timestamp, split_chars_once(chars.as_slice(), marker.as_slice())) {
        (Some(timestamp), Some((before, useful))) => {
            match split_chars_once(useful, space.as_slice()) {
                Some((node, path)) => {
                    assert(before@.len() + marker@.len() + node@.len() <= chars.len());
                    let start: usize = before.len() + marker.len();
                    let text = line.substring_char(start, start + node.len());
                    assert(text@ == node@);
                    match (parse_path(path), parse_node_id(text)) {
                        (Some(parsed), Some(starting_node)) => Some(
                            ParsedProbeResult {
                                timestamp,
                                starting_node,
                                passed_chans: parsed.passed_chans,
                                failed_chan: parsed.failed_chan,
                            },
                        ),
                        _ => None,
                    }
                },
                None => None,
            }
        },
        _ => None,
    }
}

} // verus!
