//! Mobile-originated messages: the lines of the feed, the payload of a
//! message, and the choice of the session that receives it.

use vstd::prelude::*;
use vstd::string::StrSliceExecFns;
use crate::smpp::lifecycle::Dispatch;
use crate::smpp::pdu::{
    address_or_empty, deliver_command, deliver_command_view, payload_or_empty, sanitized_address,
    sanitized_payload, SmppCommand, SmppCommandView,
};
use crate::smpp::queue::MoMessage;
use crate::smpp::session::{eligible, SessionManager};
use crate::text::{chars_to_string, starts_with, str_chars};

verus! {

/// The number that a hexadecimal digit of either case stands for.
pub open spec fn hex_digit_value(c: char) -> Option<int> {
    if '0' <= c && c <= '9' {
        Some(c as int - 48)
    } else if 'a' <= c && c <= 'f' {
        Some(c as int - 87)
    } else if 'A' <= c && c <= 'F' {
        Some(c as int - 55)
    } else {
        None
    }
}

/// Whether `text` is an even number of hexadecimal digits.
pub open spec fn is_hex_text(text: Seq<char>) -> bool {
    &&& text.len() % 2 == 0
    &&& forall|i: int| 0 <= i < text.len() ==> hex_digit_value(#[trigger] text[i]) is Some
}

/// The octets that the digits of `text` stand for, two digits to an octet,
/// the high one first.
pub open spec fn hex_octets(text: Seq<char>) -> Seq<u8> {
    Seq::new(
        text.len() / 2,
        |i: int|
            (16 * hex_digit_value(text[2 * i]).unwrap() + hex_digit_value(
                text[2 * i + 1],
            ).unwrap()) as u8,
    )
}

/// `hex::decode`: the octets that a text of hexadecimal digits stands for.
/// A text of odd length, or with a character that is no hexadecimal digit,
/// is refused.
#[verifier::external_body]
fn hex_decode(text: &str) -> (r: Option<Vec<u8>>)
    ensures
        r is Some == is_hex_text(text@),
        r matches Some(octets) ==> octets@ == hex_octets(text@),
{
    match hex::decode(text) {
        Ok(octets) => Some(octets),
        Err(_) => None,
    }
}

/// The payload of a mobile-originated message. A text that begins with `0x`
/// and goes on in hexadecimal digits stands for the octets that the digits
/// spell; any other text stands for its own octets.
pub open spec fn mo_payload(text: Seq<char>) -> Seq<u8> {
    if "0x"@.is_prefix_of(text) && is_hex_text(text.skip(2)) {
        payload_or_empty(hex_octets(text.skip(2)))
    } else {
        payload_or_empty(vstd::utf8::encode_utf8(text))
    }
}

/// The command that delivers a mobile-originated message.
pub open spec fn mo_command(
    source_addr: Seq<char>,
    dest_addr: Seq<char>,
    short_message: Seq<char>,
) -> SmppCommandView {
    deliver_command_view(
        address_or_empty(source_addr),
        address_or_empty(dest_addr),
        mo_payload(short_message),
    )
}

/// Builds the command that delivers `msg`.
pub fn create_deliver_sm(msg: &MoMessage) -> (r: Option<SmppCommand>)
    ensures
        r matches Some(command) && command@ == mo_command(
            msg.source_addr@,
            msg.dest_addr@,
            msg.short_message@,
        ),
{
    let text = msg.short_message.as_str();
    let decoded = if starts_with(text, "0x") {
        proof {
            reveal_strlit("0x");
        }
        let length = text.unicode_len();
        let digits = text.substring_char(2, length);
        assert(digits@ =~= text@.skip(2));
        hex_decode(digits)
    } else {
        None
    };
    let payload = match decoded {
        Some(octets) => sanitized_payload(octets.as_slice()),
        None => sanitized_payload(text.as_bytes()),
    };
    Some(
        deliver_command(
            sanitized_address(msg.source_addr.as_str()),
            sanitized_address(msg.dest_addr.as_str()),
            payload,
        ),
    )
}

/// Routes a mobile-originated message: the command that delivers it, for a
/// registered session that may receive messages for its destination.
/// `None`, and the message is dropped, where no session may.
pub fn dispatch_mo(msg: &MoMessage, session_manager: &SessionManager) -> (r: Option<Dispatch>)
    ensures
        match r {
            Some(d) => {
                &&& session_manager@.contains_key(d@.session_id)
                &&& eligible(session_manager@[d@.session_id], msg.dest_addr@)
                &&& d@.command == mo_command(msg.source_addr@, msg.dest_addr@, msg.short_message@)
            },
            None => forall|k: Seq<char>| #[trigger]
                session_manager@.contains_key(k) ==> !eligible(
                    session_manager@[k],
                    msg.dest_addr@,
                ),
        },
{
    match session_manager.find_subscriber(msg.dest_addr.as_str()) {
        Some(session) => match create_deliver_sm(msg) {
            Some(command) => Some(Dispatch { session_id: session.id, command }),
            None => None,
        },
        None => None,
    }
}

/// Milliseconds between two messages of the feed at `rate` messages per
/// minute; 1000 where the rate is 0.
pub fn feed_period_ms(rate: u32) -> (r: u64)
    ensures
        r == if rate > 0 {
            60000int / (rate as int)
        } else {
            1000int
        },
{
    if rate > 0 {
        60000 / (rate as u64)
    } else {
        1000
    }
}

/// Whether `c` is white space: a character with the Unicode property
/// `White_Space`.
pub open spec fn is_whitespace(c: char) -> bool {
    let n = c as u32;
    ||| 0x09 <= n <= 0x0D
    ||| n == 0x20
    ||| n == 0x85
    ||| n == 0xA0
    ||| n == 0x1680
    ||| 0x2000 <= n <= 0x200A
    ||| n == 0x2028
    ||| n == 0x2029
    ||| n == 0x202F
    ||| n == 0x205F
    ||| n == 0x3000
}

/// Whether `c` is white space.
pub fn char_is_whitespace(c: char) -> (r: bool)
    ensures
        r == is_whitespace(c),
{
    let n = c as u32;
    (0x09 <= n && n <= 0x0D) || n == 0x20 || n == 0x85 || n == 0xA0 || n == 0x1680 || (0x2000 <= n
        && n <= 0x200A) || n == 0x2028 || n == 0x2029 || n == 0x202F || n == 0x205F || n
        == 0x3000
}

/// How many characters of white space `s` begins with.
pub open spec fn leading_whitespace(s: Seq<char>) -> int
    decreases s.len(),
{
    if s.len() == 0 || !is_whitespace(s[0]) {
        0
    } else {
        1 + leading_whitespace(s.drop_first())
    }
}

/// How many characters of white space `s` ends with.
pub open spec fn trailing_whitespace(s: Seq<char>) -> int
    decreases s.len(),
{
    if s.len() == 0 || !is_whitespace(s.last()) {
        0
    } else {
        1 + trailing_whitespace(s.drop_last())
    }
}

/// `s` without the white space at its start and at its end.
pub open spec fn trimmed(s: Seq<char>) -> Seq<char> {
    let start = leading_whitespace(s);
    if start >= s.len() {
        Seq::empty()
    } else {
        s.subrange(start, s.len() - trailing_whitespace(s))
    }
}

/// Index of the first comma in `s`, or `s.len()` where it has none.
pub open spec fn first_comma(s: Seq<char>) -> int
    decreases s.len(),
{
    if s.len() == 0 || s[0] == ',' {
        0
    } else {
        1 + first_comma(s.drop_first())
    }
}

proof fn lemma_leading_whitespace_is(s: Seq<char>, i: int)
    requires
        0 <= i <= s.len(),
        forall|j: int| 0 <= j < i ==> is_whitespace(s[j]),
        i < s.len() ==> !is_whitespace(s[i]),
    ensures
        leading_whitespace(s) == i,
    decreases s.len(),
{
    if i > 0 {
        let t = s.drop_first();
        assert forall|j: int| 0 <= j < i - 1 implies is_whitespace(t[j]) by {
            assert(t[j] == s[j + 1]);
        }
        lemma_leading_whitespace_is(t, i - 1);
    }
}

proof fn lemma_trailing_whitespace_is(s: Seq<char>, n: int)
    requires
        0 <= n <= s.len(),
        forall|j: int| s.len() - n <= j < s.len() ==> is_whitespace(s[j]),
        n < s.len() ==> !is_whitespace(s[s.len() - n - 1]),
    ensures
        trailing_whitespace(s) == n,
    decreases s.len(),
{
    if n > 0 {
        let t = s.drop_last();
        assert forall|j: int| t.len() - (n - 1) <= j < t.len() implies is_whitespace(t[j]) by {
            assert(t[j] == s[j]);
        }
        lemma_trailing_whitespace_is(t, n - 1);
    }
}

proof fn lemma_first_comma_is(s: Seq<char>, i: int)
    requires
        0 <= i <= s.len(),
        forall|j: int| 0 <= j < i ==> s[j] != ',',
        i < s.len() ==> s[i] == ',',
    ensures
        first_comma(s) == i,
    decreases s.len(),
{
    if i > 0 {
        let t = s.drop_first();
        assert forall|j: int| 0 <= j < i - 1 implies t[j] != ',' by {
            assert(t[j] == s[j + 1]);
        }
        lemma_first_comma_is(t, i - 1);
    }
}

/// The characters `chars[from..to]`, without the white space at both ends.
fn trim_range(chars: &Vec<char>, from: usize, to: usize) -> (r: Vec<char>)
    requires
        from <= to <= chars.len(),
    ensures
        r@ == trimmed(chars@.subrange(from as int, to as int)),
{
    let ghost s = chars@.subrange(from as int, to as int);
    let mut start: usize = from;
    while start < to && char_is_whitespace(chars[start])
        invariant
            from <= start <= to <= chars.len(),
            s == chars@.subrange(from as int, to as int),
            forall|j: int| 0 <= j < start - from ==> is_whitespace(s[j]),
        decreases to - start,
    {
        start += 1;
    }
    proof {
        lemma_leading_whitespace_is(s, start - from);
    }
    let mut out: Vec<char> = Vec::new();
    if start == to {
        return out;
    }
    let mut end: usize = to;
    while end > start && char_is_whitespace(chars[end - 1])
        invariant
            from <= start < to <= chars.len(),
            start <= end <= to,
            s == chars@.subrange(from as int, to as int),
            !is_whitespace(s[start - from]),
            forall|j: int| end - from <= j < to - from ==> is_whitespace(s[j]),
        decreases end - start,
    {
        end -= 1;
    }
    proof {
        lemma_trailing_whitespace_is(s, to - end);
    }
    let mut i: usize = start;
    while i < end
        invariant
            start <= i <= end <= to <= chars.len(),
            out@ == chars@.subrange(start as int, i as int),
        decreases end - i,
    {
        out.push(chars[i]);
        i += 1;
    }
    assert(out@ =~= s.subrange(start - from, end - from));
    out
}

/// Index of the first comma of `chars` at or after `from`, or `chars.len()`.
fn find_comma(chars: &Vec<char>, from: usize) -> (r: usize)
    requires
        from <= chars.len(),
    ensures
        r == from + first_comma(chars@.skip(from as int)),
        from <= r <= chars.len(),
{
    let ghost s = chars@.skip(from as int);
    let mut i: usize = from;
    while i < chars.len() && chars[i] != ','
        invariant
            from <= i <= chars.len(),
            s == chars@.skip(from as int),
            forall|j: int| 0 <= j < i - from ==> s[j] != ',',
        decreases chars.len() - i,
    {
        i += 1;
    }
    proof {
        lemma_first_comma_is(s, i - from);
    }
    i
}

/// The record that a line of the feed holds: source, destination and text.
/// A line that is blank or begins with `#` holds none, nor does a line with
/// fewer than two commas. Source and destination are the first two fields,
/// without the white space around them; the text is all that follows the
/// second comma, commas included.
pub open spec fn record_of_line(line: Seq<char>) -> Option<(Seq<char>, Seq<char>, Seq<char>)> {
    if trimmed(line).len() == 0 || line[0] == '#' {
        None
    } else {
        let first = first_comma(line);
        let rest = line.skip(first + 1);
        let second = first_comma(rest);
        if first >= line.len() || second >= rest.len() {
            None
        } else {
            Some((trimmed(line.take(first)), trimmed(rest.take(second)), rest.skip(second + 1)))
        }
    }
}

/// Reads one line of the feed.
pub fn parse_mo_line(line: &str) -> (r: Option<MoMessage>)
    ensures
        r is Some == record_of_line(line@) is Some,
        r matches Some(msg) ==> (msg.source_addr@, msg.dest_addr@, msg.short_message@)
            == record_of_line(line@)->0,
{
    let chars = str_chars(line);
    let n = chars.len();
    assert(chars@.subrange(0, n as int) =~= chars@);
    let whole = trim_range(&chars, 0, n);
    if whole.len() == 0 || chars[0] == '#' {
        return None;
    }
    let first = find_comma(&chars, 0);
    assert(chars@.skip(0) =~= chars@);
    if first >= n {
        return None;
    }
    let second = find_comma(&chars, first + 1);
    if second >= n {
        return None;
    }
    let ghost rest = chars@.skip(first + 1);
    let source = trim_range(&chars, 0, first);
    let dest = trim_range(&chars, first + 1, second);
    let mut text: Vec<char> = Vec::new();
    let mut i: usize = second + 1;
    while i < n
        invariant
            second + 1 <= i <= n,
            n == chars.len(),
            text@ == chars@.subrange(second + 1, i as int),
        decreases n - i,
    {
        text.push(chars[i]);
        i += 1;
    }
    proof {
        assert(chars@.subrange(0, first as int) =~= line@.take(first as int));
        assert(chars@.subrange(first + 1, second as int) =~= rest.take(second - first - 1));
        assert(text@ =~= rest.skip(second - first));
    }
    Some(
        MoMessage {
            source_addr: chars_to_string(source.as_slice()),
            dest_addr: chars_to_string(dest.as_slice()),
            short_message: chars_to_string(text.as_slice()),
        },
    )
}

} // verus!
