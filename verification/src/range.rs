//! The port-range grammar `<start>-<end>` and the ports that a range covers.

use vstd::prelude::*;
use vstd::slice::slice_subrange;
use crate::decimal::{
    all_digits, chars_of, decimal_text, decimal_value, is_digit, law_port_text_round_trip,
    lemma_decimal_text_value, parse_port, port_number,
};

verus! {

/// Why a text is not a port range.
#[derive(Clone, Copy, Debug, PartialEq, Eq, Structural)]
pub enum RangeError {
    /// The text does not consist of exactly two parts separated by one `-`.
    Format,
    /// The part before the `-` is not a port number.
    StartPort,
    /// The part after the `-` is not a port number.
    EndPort,
    /// Both parts are port numbers, but the first is greater than the second.
    Order,
}

impl RangeError {
    /// The sentence that explains this error.
    pub open spec fn message_text(self) -> Seq<char> {
        match self {
            RangeError::Format => "Invalid port range format."@,
            RangeError::StartPort => "Invalid start port."@,
            RangeError::EndPort => "Invalid end port."@,
            RangeError::Order => "Start port must be less than or equal to end port."@,
        }
    }

    /// Whether the text itself was malformed, as opposed to denoting two
    /// ports in the wrong order.
    pub open spec fn is_format_error(self) -> bool {
        !(self is Order)
    }

    /// The sentence that explains this error.
    pub fn message(&self) -> (m: &'static str)
        ensures
            m@ == self.message_text(),
    {
        match self {
            RangeError::Format => "Invalid port range format.",
            RangeError::StartPort => "Invalid start port.",
            RangeError::EndPort => "Invalid end port.",
            RangeError::Order => "Start port must be less than or equal to end port.",
        }
    }
}

/// A contiguous, non-empty range of ports, both ends included.
#[derive(Clone, Copy, Debug, PartialEq, Eq, Structural)]
pub struct PortRange {
    pub start: u16,
    pub end: u16,
}

/// The ports from `start` to `end`, both included, in ascending order.
pub open spec fn port_span(start: u16, end: u16) -> Seq<u16>
    recommends
        start <= end,
{
    Seq::new((end - start + 1) as nat, |i: int| (start + i) as u16)
}

impl PortRange {
    /// A range is well formed when it does not end before it starts.
    pub open spec fn wf(self) -> bool {
        self.start <= self.end
    }

    /// The ports of the range in the order in which they are probed.
    pub open spec fn span(self) -> Seq<u16> {
        port_span(self.start, self.end)
    }

    /// The range from `start` to `end`, unless it would be empty.
    pub fn new(start: u16, end: u16) -> (range: Option<PortRange>)
        ensures
            range == if start <= end {
                Some(PortRange { start, end })
            } else {
                None
            },
            range matches Some(r) ==> r.wf(),
    {
        if start <= end {
            Some(PortRange { start, end })
        } else {
            None
        }
    }

    /// The ports of the range, ascending.
    pub fn ports(&self) -> (ports: Vec<u16>)
        requires
            self.wf(),
        ensures
            ports@ == self.span(),
    {
        let mut ports: Vec<u16> = Vec::new();
        let mut port: u16 = self.start;
        ports.push(port);
        while port < self.end
            invariant
                self.start <= port <= self.end,
                ports@ =~= port_span(self.start, port),
            decreases self.end - port,
        {
            port = port + 1;
            ports.push(port);
        }
        ports
    }
}

/// Whether position `i` of `s` holds a `-`.
pub open spec fn dash_at(s: Seq<char>, i: int) -> bool {
    0 <= i < s.len() && s[i] == '-'
}

/// Whether position `i` holds the only `-` of `s`.
pub open spec fn sole_dash(s: Seq<char>, i: int) -> bool {
    dash_at(s, i) && forall|j: int| #[trigger] dash_at(s, j) ==> j == i
}

/// Whether `s` consists of exactly two parts separated by one `-`.
pub open spec fn has_two_parts(s: Seq<char>) -> bool {
    exists|i: int| sole_dash(s, i)
}

/// Where the `-` stands in a text of two parts.
pub open spec fn dash_index(s: Seq<char>) -> int
    recommends
        has_two_parts(s),
{
    choose|i: int| sole_dash(s, i)
}

/// The part of a two-part text before the `-`.
pub open spec fn start_part(s: Seq<char>) -> Seq<char> {
    s.take(dash_index(s))
}

/// The part of a two-part text after the `-`.
pub open spec fn end_part(s: Seq<char>) -> Seq<char> {
    s.skip(dash_index(s) + 1)
}

/// What a text means as a port range. The checks come in a fixed order: the
/// shape, then the start port, then the end port, then their order.
pub open spec fn range_of(s: Seq<char>) -> Result<PortRange, RangeError> {
    if !has_two_parts(s) {
        Err(RangeError::Format)
    } else {
        match (port_number(start_part(s)), port_number(end_part(s))) {
            (None, _) => Err(RangeError::StartPort),
            (Some(_), None) => Err(RangeError::EndPort),
            (Some(start), Some(end)) => if start > end {
                Err(RangeError::Order)
            } else {
                Ok(PortRange { start, end })
            },
        }
    }
}

/// A text has at most one sole dash, so knowing one fixes `dash_index`.
pub proof fn lemma_sole_dash_unique(s: Seq<char>, i: int)
    requires
        sole_dash(s, i),
    ensures
        has_two_parts(s),
        dash_index(s) == i,
{
    let k = dash_index(s);
    assert(sole_dash(s, k));
    assert(dash_at(s, i));
}

/// The position of the first `-` at or after `from`, or the length of `chars`
/// when there is none.
fn first_dash(chars: &[char], from: usize) -> (at: usize)
    requires
        from <= chars@.len(),
    ensures
        from <= at <= chars@.len(),
        forall|j: int| from <= j < at ==> !dash_at(chars@, j),
        at < chars@.len() ==> dash_at(chars@, at as int),
{
    let mut at: usize = from;
    while at < chars.len() && chars[at] != '-'
        invariant
            from <= at <= chars@.len(),
            forall|j: int| from <= j < at ==> !dash_at(chars@, j),
        decreases chars@.len() - at,
    {
        at = at + 1;
    }
    at
}

/// Reads a port range from `text`.
pub fn parse_range(text: &str) -> (range: Result<PortRange, RangeError>)
    ensures
        range == range_of(text@),
        range matches Ok(r) ==> r.wf(),
{
    let chars = chars_of(text);
    let n: usize = chars.len();
    let dash: usize = first_dash(chars.as_slice(), 0);
    if dash == n {
        assert(!has_two_parts(text@)) by {
            assert forall|i: int| !sole_dash(text@, i) by {}
        }
        return Err(RangeError::Format);
    }
    let second: usize = first_dash(chars.as_slice(), dash + 1);
    if second < n {
        assert(!has_two_parts(text@)) by {
            assert forall|i: int| !sole_dash(text@, i) by {
                assert(dash_at(text@, dash as int));
                assert(dash_at(text@, second as int));
            }
        }
        return Err(RangeError::Format);
    }
    proof {
        assert(sole_dash(text@, dash as int));
        lemma_sole_dash_unique(text@, dash as int);
    }
    let start = parse_port(slice_subrange(chars.as_slice(), 0, dash));
    let end = parse_port(slice_subrange(chars.as_slice(), dash + 1, n));
    match (start, end) {
        (None, _) => Err(RangeError::StartPort),
        (Some(_), None) => Err(RangeError::EndPort),
        (Some(start), Some(end)) => {
            if start > end {
                Err(RangeError::Order)
            } else {
                Ok(PortRange { start, end })
            }
        },
    }
}

/// Reads a port range from `text` and lists its ports in ascending order; on
/// failure, gives the sentence that explains why `text` is not a range.
pub fn parse_port_range(text: &str) -> (ports: Result<Vec<u16>, &'static str>)
    ensures
        match range_of(text@) {
            Ok(range) => ports matches Ok(v) && v@ == range.span(),
            Err(e) => ports matches Err(m) && m@ == e.message_text(),
        },
{
    match parse_range(text) {
        Ok(range) => Ok(range.ports()),
        Err(e) => Err(e.message()),
    }
}

/// However its two ports are spelled, a text with a single `-` at `i` means
/// what the parts before and after `i` denote: a range where both are ports
/// in ascending order, and otherwise the first error among start port, end
/// port and order.
pub proof fn law_meaning_follows_from_parts(s: Seq<char>, i: int)
    requires
        sole_dash(s, i),
    ensures
        range_of(s) == match (port_number(s.take(i)), port_number(s.skip(i + 1))) {
            (None, _) => Err::<PortRange, RangeError>(RangeError::StartPort),
            (Some(_), None) => Err(RangeError::EndPort),
            (Some(start), Some(end)) => if start > end {
                Err(RangeError::Order)
            } else {
                Ok(PortRange { start, end })
            },
        },
{
    lemma_sole_dash_unique(s, i);
}

/// Whether `part` holds no `-`.
pub open spec fn dash_free(part: Seq<char>) -> bool {
    forall|k: int| 0 <= k < part.len() ==> part[k] != '-'
}

/// Whether `part` is empty or holds a character that is no digit.
pub open spec fn lacks_digits(part: Seq<char>) -> bool {
    part.len() == 0 || !all_digits(part)
}

/// A text made of two parts around one `-` is never a range when one of the
/// parts is empty or holds a character that is no digit. The start port is
/// named where the first part is such a part; the end port is named where
/// the first part is a port and only the second is such a part.
pub proof fn law_part_without_digits_is_refused(a: Seq<char>, b: Seq<char>)
    requires
        dash_free(a),
        dash_free(b),
        lacks_digits(a) || lacks_digits(b),
    ensures
        range_of(a + seq!['-'] + b) is Err,
        lacks_digits(a) ==> range_of(a + seq!['-'] + b) == Err::<PortRange, RangeError>(
            RangeError::StartPort,
        ),
        port_number(a) is Some ==> range_of(a + seq!['-'] + b) == Err::<PortRange, RangeError>(
            RangeError::EndPort,
        ),
{
    let s = a + seq!['-'] + b;
    let i = a.len() as int;
    assert forall|j: int| #[trigger] dash_at(s, j) implies j == i by {
        if j < i {
            assert(s[j] == a[j]);
        } else if j > i {
            assert(s[j] == b[j - i - 1]);
        }
    }
    assert(sole_dash(s, i));
    law_meaning_follows_from_parts(s, i);
    assert(s.take(i) =~= a);
    assert(s.skip(i + 1) =~= b);
}

/// The usual spelling of the range from `start` to `end`.
pub open spec fn range_text(start: u16, end: u16) -> Seq<char> {
    decimal_text(start as nat) + seq!['-'] + decimal_text(end as nat)
}

/// The usual spelling of two ports has its only `-` between them, and its
/// parts denote those ports.
pub proof fn lemma_range_text_parts(start: u16, end: u16)
    ensures
        sole_dash(range_text(start, end), decimal_text(start as nat).len() as int),
        port_number(start_part(range_text(start, end))) == Some(start),
        port_number(end_part(range_text(start, end))) == Some(end),
{
    let a = decimal_text(start as nat);
    let b = decimal_text(end as nat);
    let s = range_text(start, end);
    let i = a.len() as int;
    lemma_decimal_text_value(start as nat);
    lemma_decimal_text_value(end as nat);
    assert forall|j: int| #[trigger] dash_at(s, j) implies j == i by {
        if j < i {
            assert(is_digit(a[j]));
        } else if j > i {
            assert(is_digit(b[j - i - 1]));
        }
    }
    assert(sole_dash(s, i));
    lemma_sole_dash_unique(s, i);
    assert(s.take(i) =~= a);
    assert(s.skip(i + 1) =~= b);
    law_port_text_round_trip(start);
    law_port_text_round_trip(end);
}

/// The ports of a span ascend strictly, so none occurs twice.
pub proof fn lemma_port_span_ascending(start: u16, end: u16)
    requires
        start <= end,
    ensures
        port_span(start, end).len() == end - start + 1,
        port_span(start, end).first() == start,
        port_span(start, end).last() == end,
        forall|i: int, j: int|
            0 <= i < j < port_span(start, end).len() ==> port_span(start, end)[i] < port_span(
                start,
                end,
            )[j],
        port_span(start, end).no_duplicates(),
{
}

/// For all ports `start <= end`, the text `<start>-<end>` is read as the
/// range of exactly `end - start + 1` ports, from `start` to `end`, strictly
/// ascending and therefore without duplicates.
pub proof fn law_valid_range_yields_span(start: u16, end: u16)
    requires
        start <= end,
    ensures
        range_of(range_text(start, end)) == Ok::<PortRange, RangeError>(PortRange { start, end }),
        port_span(start, end).len() == end - start + 1,
        forall|i: int, j: int|
            0 <= i < j < port_span(start, end).len() ==> port_span(start, end)[i] < port_span(
                start,
                end,
            )[j],
        port_span(start, end).no_duplicates(),
{
    lemma_range_text_parts(start, end);
    lemma_port_span_ascending(start, end);
}

/// For all ports `start > end`, the text `<start>-<end>` is refused because
/// of the order of its ports.
pub proof fn law_reversed_range_is_order_error(start: u16, end: u16)
    requires
        start > end,
    ensures
        range_of(range_text(start, end)) == Err::<PortRange, RangeError>(RangeError::Order),
{
    lemma_range_text_parts(start, end);
}

/// Whether position `k` holds a character that no range may hold: anything
/// but a digit or the `-`.
pub open spec fn stray_char_at(s: Seq<char>, k: int) -> bool {
    0 <= k < s.len() && !is_digit(s[k]) && s[k] != '-'
}

/// Whether `part` has no digits at all or denotes a number above 65535.
pub open spec fn out_of_bounds(part: Seq<char>) -> bool {
    part.len() == 0 || decimal_value(part) > u16::MAX
}

/// The ways in which a text can fail to spell two port numbers: it has no
/// `-`, it has more than one, it holds a character that does not belong, or
/// one of its parts is empty or too large for a port.
pub open spec fn malformed(s: Seq<char>) -> bool {
    ||| forall|i: int| !dash_at(s, i)
    ||| exists|i: int, j: int| i != j && dash_at(s, i) && dash_at(s, j)
    ||| exists|k: int| stray_char_at(s, k)
    ||| exists|i: int| sole_dash(s, i) && (out_of_bounds(s.take(i)) || out_of_bounds(s.skip(i + 1)))
}

/// A part without a `-` denotes no port exactly when it is empty, too large
/// or holds a stray character.
proof fn lemma_port_number_of_part(s: Seq<char>, from: int, to: int)
    requires
        0 <= from <= to <= s.len(),
        forall|k: int| from <= k < to ==> s[k] != '-',
    ensures
        port_number(s.subrange(from, to)) is None <==> out_of_bounds(s.subrange(from, to)) || exists|
            k: int,
        | from <= k < to && stray_char_at(s, k),
{
    let part = s.subrange(from, to);
    if exists|k: int| from <= k < to && stray_char_at(s, k) {
        let k = choose|k: int| from <= k < to && stray_char_at(s, k);
        assert(part[k - from] == s[k]);
        assert(!all_digits(part));
    } else if !all_digits(part) {
        let j = choose|j: int| 0 <= j < part.len() && !is_digit(#[trigger] part[j]);
        assert(part[j] == s[j + from]);
        assert(stray_char_at(s, j + from));
    }
}

/// A text is refused for its form exactly when it is malformed: every text
/// that lacks the `-`, has a second one, holds a character that is neither a
/// digit nor the `-`, or has an empty or too large part is a format error,
/// and nothing else is.
pub proof fn law_malformed_is_format_error(s: Seq<char>)
    ensures
        malformed(s) <==> (range_of(s) matches Err(e) && e.is_format_error()),
        !has_two_parts(s) ==> range_of(s) == Err::<PortRange, RangeError>(RangeError::Format),
{
    if has_two_parts(s) {
        let i = dash_index(s);
        assert(sole_dash(s, i));
        assert(s.take(i) =~= s.subrange(0, i));
        assert(s.skip(i + 1) =~= s.subrange(i + 1, s.len() as int));
        assert forall|k: int| 0 <= k < s.len() && k != i implies s[k] != '-' by {
            if s[k] == '-' {
                assert(dash_at(s, k));
            }
        }
        lemma_port_number_of_part(s, 0, i);
        lemma_port_number_of_part(s, i + 1, s.len() as int);
        assert(!stray_char_at(s, i));
        assert(dash_at(s, i));
        if malformed(s) {
            if exists|a: int, b: int| a != b && dash_at(s, a) && dash_at(s, b) {
                let (a, b) = choose|a: int, b: int| a != b && dash_at(s, a) && dash_at(s, b);
                assert(false);
            }
            if exists|j: int|
                sole_dash(s, j) && (out_of_bounds(s.take(j)) || out_of_bounds(s.skip(j + 1))) {
                let j = choose|j: int|
                    sole_dash(s, j) && (out_of_bounds(s.take(j)) || out_of_bounds(s.skip(j + 1)));
                assert(dash_at(s, j));
                assert(j == i);
            }
        }
    } else {
        if !(forall|i: int| !dash_at(s, i)) {
            let i = choose|i: int| dash_at(s, i);
            assert(!sole_dash(s, i));
            let j = choose|j: int| #[trigger] dash_at(s, j) && j != i;
            assert(i != j && dash_at(s, i) && dash_at(s, j));
        }
    }
}

} // verus!
