//! Protocol version switch and the repair pass for bind requests whose
//! C-octet strings lack their terminating NUL.

use vstd::prelude::*;
use vstd::string::StringExecFns;
use bytes::BytesMut;
use rusmpp::codec::CommandCodec;
use tokio_util::codec::{Decoder, Encoder};
use crate::text::{contains_text, occurs_in, str_eq};

verus! {

/// Length of the PDU header: four big-endian `u32` fields.
pub const HEADER_LENGTH: usize = 16;

pub const BIND_RECEIVER: u32 = 0x0000_0001;

pub const BIND_TRANSMITTER: u32 = 0x0000_0002;

pub const BIND_TRANSCEIVER: u32 = 0x0000_0009;

/// Protocol compatibility mode of a connection.
#[derive(Debug, Clone, Copy, PartialEq, Eq, Structural)]
pub enum SmppVersion {
    /// Lenient mode for 3.4 clients.
    V34,
    /// Strict mode.
    V50,
}

impl SmppVersion {
    /// The texts that select the lenient mode.
    pub open spec fn names_v34(s: Seq<char>) -> bool {
        s == "3.4"@ || s == "34"@ || s == "3"@
    }

    /// `V34` for "3.4", "34" and "3"; `V50` for every other text.
    pub fn from_str(s: &str) -> (r: SmppVersion)
        ensures
            r == if Self::names_v34(s@) {
                SmppVersion::V34
            } else {
                SmppVersion::V50
            },
    {
        if str_eq(s, "3.4") || str_eq(s, "34") || str_eq(s, "3") {
            SmppVersion::V34
        } else {
            SmppVersion::V50
        }
    }

    /// The canonical text of the mode.
    pub fn as_str(&self) -> (r: &'static str)
        ensures
            r@ == match *self {
                SmppVersion::V34 => "3.4"@,
                SmppVersion::V50 => "5.0"@,
            },
    {
        match self {
            SmppVersion::V34 => "3.4",
            SmppVersion::V50 => "5.0",
        }
    }
}

/// The big-endian `u32` at `at`.
pub open spec fn be_u32(buf: Seq<u8>, at: int) -> int {
    buf[at] * 0x100_0000 + buf[at + 1] * 0x1_0000 + buf[at + 2] * 0x100 + buf[at + 3]
}

/// The four bytes of `n`, most significant first.
pub open spec fn be_bytes(n: int) -> Seq<u8> {
    seq![
        (n / 0x100_0000) as u8,
        ((n / 0x1_0000) % 0x100) as u8,
        ((n / 0x100) % 0x100) as u8,
        (n % 0x100) as u8,
    ]
}

/// The command length that the header of `buf` declares.
pub open spec fn declared_length(buf: Seq<u8>) -> int {
    be_u32(buf, 0)
}

/// The command id in the header of `buf`.
pub open spec fn command_id(buf: Seq<u8>) -> int {
    be_u32(buf, 4)
}

pub open spec fn is_bind_request(id: int) -> bool {
    id == BIND_RECEIVER || id == BIND_TRANSMITTER || id == BIND_TRANSCEIVER
}

/// Index of the first NUL in `s`, or `s.len()` where there is none.
pub open spec fn first_nul(s: Seq<u8>) -> int
    decreases s.len(),
{
    if s.len() == 0 || s[0] == 0 {
        0
    } else {
        1 + first_nul(s.drop_first())
    }
}

pub open spec fn has_nul(s: Seq<u8>) -> bool {
    first_nul(s) < s.len()
}

/// How many bytes of `s` its leading C-octet string takes: up to and
/// including the first NUL, or all of `s` where it has none.
pub open spec fn field_consumed(s: Seq<u8>) -> int {
    if has_nul(s) {
        first_nul(s) + 1
    } else {
        s.len() as int
    }
}

/// The leading C-octet string of `s` with its terminator, which is added
/// where `s` has none.
pub open spec fn field_output(s: Seq<u8>) -> Seq<u8> {
    if has_nul(s) {
        s.take(first_nul(s) + 1)
    } else {
        s.push(0u8)
    }
}

pub proof fn lemma_first_nul(s: Seq<u8>)
    ensures
        0 <= first_nul(s) <= s.len(),
        forall|j: int| 0 <= j < first_nul(s) ==> s[j] != 0,
        first_nul(s) < s.len() ==> s[first_nul(s)] == 0,
    decreases s.len(),
{
    if s.len() == 0 || s[0] == 0 {
    } else {
        let t = s.drop_first();
        lemma_first_nul(t);
        assert forall|j: int| 0 <= j < first_nul(s) implies s[j] != 0 by {
            if j > 0 {
                assert(s[j] == t[j - 1]);
            }
        }
    }
}

/// A position below which `s` has no NUL, and which holds one or is the end
/// of `s`, is `first_nul(s)`.
pub proof fn lemma_first_nul_is(s: Seq<u8>, i: int)
    requires
        0 <= i <= s.len(),
        forall|j: int| 0 <= j < i ==> s[j] != 0,
        i < s.len() ==> s[i] == 0,
    ensures
        first_nul(s) == i,
{
    lemma_first_nul(s);
    let f = first_nul(s);
    if f < i {
        assert(s[f] == 0);
    } else if f > i {
        assert(s[i] != 0);
    }
}

/// Copies the leading C-octet string of `src` to the end of `dst` and makes
/// sure it ends in NUL. Returns how many bytes of `src` it took and whether
/// the NUL had to be added.
pub fn copy_coctet_string(src: &[u8], dst: &mut Vec<u8>) -> (r: (usize, bool))
    ensures
        final(dst)@ == old(dst)@ + field_output(src@),
        r.0 == field_consumed(src@),
        r.1 == !has_nul(src@),
{
    let mut i: usize = 0;
    while i < src.len() && src[i] != 0
        invariant
            i <= src.len(),
            dst@ == old(dst)@ + src@.take(i as int),
            forall|j: int| 0 <= j < i ==> src@[j] != 0,
        decreases src.len() - i,
    {
        dst.push(src[i]);
        assert(src@.take(i + 1) =~= src@.take(i as int).push(src@[i as int]));
        i += 1;
    }
    proof {
        lemma_first_nul_is(src@, i as int);
    }
    dst.push(0);
    if i < src.len() {
        assert(src@.take(i + 1) =~= src@.take(i as int).push(0u8));
        (i + 1, false)
    } else {
        assert(src@.take(i as int) =~= src@);
        (i, true)
    }
}

/// Progress of the walk over the body of a bind request.
pub struct BindWalk {
    /// The repaired body written so far.
    pub out: Seq<u8>,
    /// How many bytes of the body were read.
    pub pos: int,
    /// How many terminators were added.
    pub fixes: int,
}

/// The walk after one more C-octet string, read at `w.pos`.
pub open spec fn walk_string(w: BindWalk, body: Seq<u8>) -> BindWalk {
    let s = body.skip(w.pos);
    BindWalk {
        out: w.out + field_output(s),
        pos: w.pos + field_consumed(s),
        fixes: w.fixes + if has_nul(s) {
            0int
        } else {
            1int
        },
    }
}

/// The walk after the three fixed bytes (interface version, type of number,
/// numbering plan), or as many of them as the body still holds.
pub open spec fn walk_fixed(w: BindWalk, body: Seq<u8>) -> BindWalk {
    let k = if body.len() - w.pos < 3 {
        body.len() - w.pos
    } else {
        3
    };
    if w.pos < body.len() {
        BindWalk { out: w.out + body.subrange(w.pos, w.pos + k), pos: w.pos + k, fixes: w.fixes }
    } else {
        w
    }
}

/// The walk after what is left of the body (the optional parameters), copied
/// as it is.
pub open spec fn walk_rest(w: BindWalk, body: Seq<u8>) -> BindWalk {
    if w.pos < body.len() {
        BindWalk { out: w.out + body.skip(w.pos), pos: body.len() as int, fixes: w.fixes }
    } else {
        w
    }
}

/// The walk after one more C-octet string, if any byte of the body is left.
pub open spec fn walk_string_if_left(w: BindWalk, body: Seq<u8>) -> BindWalk {
    if w.pos < body.len() {
        walk_string(w, body)
    } else {
        w
    }
}

/// The walk over the three C-octet strings at the start of the body of a
/// bind request: the system id in any case, then password and system type,
/// each while bytes of the body are left.
pub open spec fn walk_names(body: Seq<u8>) -> BindWalk {
    let w0 = BindWalk { out: Seq::empty(), pos: 0, fixes: 0 };
    walk_string_if_left(walk_string_if_left(walk_string(w0, body), body), body)
}

/// The walk after the address range, which is read where all three fixed
/// bytes stand in front of it, also where the body ends behind them. `at`
/// is the walk in front of the fixed bytes and `w` the walk behind them.
pub open spec fn walk_range(at: BindWalk, w: BindWalk, body: Seq<u8>) -> BindWalk {
    if w.pos == at.pos + 3 {
        walk_string(w, body)
    } else {
        w
    }
}

/// The whole walk over the body of a bind request: system id, password and
/// system type, the three fixed bytes, the address range, the optional
/// parameters. The walk ends where the body ends. A string that the body
/// ends in gets its terminator, and so does an address range of which the
/// body holds nothing, not even the terminator.
pub open spec fn bind_walk(body: Seq<u8>) -> BindWalk {
    let names = walk_names(body);
    let fixed = walk_fixed(names, body);
    walk_rest(walk_range(names, fixed, body), body)
}

/// The buffer with its first PDU repaired, where that PDU is a complete bind
/// request in which at least one terminator was missing: the header with the
/// new command length, the repaired body, then whatever followed the PDU in
/// `buf`, unchanged. `None` where there is nothing to repair.
pub open spec fn repaired(buf: Seq<u8>) -> Option<Seq<u8>> {
    if buf.len() < HEADER_LENGTH {
        None
    } else {
        let len = declared_length(buf);
        if len < HEADER_LENGTH || buf.len() < len || !is_bind_request(command_id(buf)) {
            None
        } else {
            let w = bind_walk(buf.subrange(HEADER_LENGTH as int, len));
            if w.fixes == 0 || HEADER_LENGTH + w.out.len() > u32::MAX {
                None
            } else {
                Some(
                    be_bytes(HEADER_LENGTH + w.out.len()) + buf.subrange(4, HEADER_LENGTH as int)
                        + w.out + buf.skip(len),
                )
            }
        }
    }
}

/// Reads the big-endian `u32` at `at`.
pub fn read_be_u32(buf: &[u8], at: usize) -> (r: u32)
    requires
        at + 4 <= buf.len(),
    ensures
        r == be_u32(buf@, at as int),
{
    let b0: u32 = buf[at] as u32;
    let b1: u32 = buf[at + 1] as u32;
    let b2: u32 = buf[at + 2] as u32;
    let b3: u32 = buf[at + 3] as u32;
    b0 * 0x100_0000 + b1 * 0x1_0000 + b2 * 0x100 + b3
}

/// Appends `src[from..to]` to `dst`.
fn append_range(dst: &mut Vec<u8>, src: &[u8], from: usize, to: usize)
    requires
        from <= to <= src.len(),
    ensures
        final(dst)@ == old(dst)@ + src@.subrange(from as int, to as int),
{
    let mut i: usize = from;
    while i < to
        invariant
            from <= i <= to <= src.len(),
            dst@ == old(dst)@ + src@.subrange(from as int, i as int),
        decreases to - i,
    {
        dst.push(src[i]);
        assert(src@.subrange(from as int, i + 1) =~= src@.subrange(from as int, i as int).push(
            src@[i as int],
        ));
        i += 1;
    }
    assert(src@.subrange(from as int, from as int) =~= Seq::<u8>::empty());
}

/// Copies the C-octet string of `body` at `pos` to `out`, with its
/// terminator.
fn copy_field(body: &[u8], pos: usize, out: &mut Vec<u8>) -> (r: (usize, bool))
    requires
        pos <= body.len(),
    ensures
        final(out)@ == old(out)@ + field_output(body@.skip(pos as int)),
        r.0 == pos + field_consumed(body@.skip(pos as int)),
        r.0 <= body.len(),
        r.1 == !has_nul(body@.skip(pos as int)),
{
    let mut field: Vec<u8> = Vec::new();
    append_range(&mut field, body, pos, body.len());
    assert(field@ =~= body@.skip(pos as int));
    proof {
        lemma_first_nul(field@);
    }
    let (taken, added) = copy_coctet_string(field.as_slice(), out);
    (pos + taken, added)
}

/// Repairs the first PDU of `src` where it is a complete bind request
/// (bind_receiver, bind_transmitter, bind_transceiver) with a C-octet
/// string that lacks its NUL before the end of the body. The repaired buffer
/// declares the new command length; the bytes that follow the PDU in `src`
/// are kept as they are.
#[verifier::rlimit(60)]
pub fn try_fix_pdu_nulls(src: &[u8]) -> (r: Option<Vec<u8>>)
    ensures
        r is Some == repaired(src@) is Some,
        r matches Some(fixed) ==> fixed@ == repaired(src@)->0,
{
    if src.len() < HEADER_LENGTH {
        return None;
    }
    let declared: u32 = read_be_u32(src, 0);
    let cmd_len: usize = declared as usize;
    if cmd_len < HEADER_LENGTH || src.len() < cmd_len {
        return None;
    }
    let cmd_id: u32 = read_be_u32(src, 4);
    if !(cmd_id == BIND_RECEIVER || cmd_id == BIND_TRANSMITTER || cmd_id == BIND_TRANSCEIVER) {
        return None;
    }
    let mut body: Vec<u8> = Vec::new();
    append_range(&mut body, src, HEADER_LENGTH, cmd_len);
    assert(body@ =~= src@.subrange(HEADER_LENGTH as int, cmd_len as int));
    let body_len: usize = body.len();

    let mut out: Vec<u8> = Vec::new();
    let mut fixed_count: usize = 0;
    let ghost w0 = BindWalk { out: Seq::<u8>::empty(), pos: 0, fixes: 0 };

    let (mut pos, added) = copy_field(body.as_slice(), 0, &mut out);
    if added {
        fixed_count += 1;
    }
    let ghost w1 = walk_string(w0, body@);
    assert(out@ =~= w1.out && pos == w1.pos && fixed_count == w1.fixes);

    if pos < body_len {
        let (next, added) = copy_field(body.as_slice(), pos, &mut out);
        pos = next;
        if added {
            fixed_count += 1;
        }
    }
    let ghost w2 = walk_string_if_left(w1, body@);
    assert(out@ =~= w2.out && pos == w2.pos && fixed_count == w2.fixes);

    if pos < body_len {
        let (next, added) = copy_field(body.as_slice(), pos, &mut out);
        pos = next;
        if added {
            fixed_count += 1;
        }
    }
    let ghost w3 = walk_string_if_left(w2, body@);
    assert(out@ =~= w3.out && pos == w3.pos && fixed_count == w3.fixes);
    assert(w3 == walk_names(body@));

    let mut fixed_bytes: usize = 0;
    if pos < body_len {
        let left: usize = body_len - pos;
        fixed_bytes = if left < 3 {
            left
        } else {
            3
        };
        append_range(&mut out, body.as_slice(), pos, pos + fixed_bytes);
        pos += fixed_bytes;
    }
    let ghost w4 = walk_fixed(w3, body@);
    assert(out@ =~= w4.out && pos == w4.pos && fixed_count == w4.fixes);

    if fixed_bytes == 3 {
        let (next, added) = copy_field(body.as_slice(), pos, &mut out);
        pos = next;
        if added {
            fixed_count += 1;
        }
    }
    let ghost w5 = walk_range(w3, w4, body@);
    assert(out@ =~= w5.out && pos == w5.pos && fixed_count == w5.fixes);

    if pos < body_len {
        append_range(&mut out, body.as_slice(), pos, body_len);
        assert(body@.subrange(pos as int, body_len as int) =~= body@.skip(pos as int));
    }
    let ghost w6 = walk_rest(w5, body@);
    assert(out@ =~= w6.out && fixed_count == w6.fixes);
    assert(w6 == bind_walk(body@));

    if fixed_count == 0 {
        return None;
    }
    if out.len() > (u32::MAX as usize) - HEADER_LENGTH {
        return None;
    }
    let new_len: u32 = (HEADER_LENGTH + out.len()) as u32;
    let mut fixed: Vec<u8> = Vec::new();
    fixed.push((new_len / 0x100_0000) as u8);
    fixed.push(((new_len / 0x1_0000) % 0x100) as u8);
    fixed.push(((new_len / 0x100) % 0x100) as u8);
    fixed.push((new_len % 0x100) as u8);
    assert(fixed@ =~= be_bytes(new_len as int));
    append_range(&mut fixed, src, 4, HEADER_LENGTH);
    append_range(&mut fixed, out.as_slice(), 0, out.len());
    assert(out@.subrange(0, out@.len() as int) =~= out@);
    append_range(&mut fixed, src, cmd_len, src.len());
    assert(src@.subrange(cmd_len as int, src@.len() as int) =~= src@.skip(cmd_len as int));
    Some(fixed)
}

/// Four bytes written for a number read back as that number.
pub proof fn lemma_be_bytes_read_back(n: int)
    requires
        0 <= n <= u32::MAX,
    ensures
        be_bytes(n).len() == 4,
        be_u32(be_bytes(n), 0) == n,
{
}

/// A C-octet string that was copied with its terminator reads back as it
/// is, whatever follows it: the terminator is its first NUL.
pub proof fn lemma_field_output_reads_back(s: Seq<u8>, rest: Seq<u8>)
    ensures
        field_output(s).len() >= 1,
        has_nul(field_output(s) + rest),
        field_consumed(field_output(s) + rest) == field_output(s).len(),
        field_output(field_output(s) + rest) == field_output(s),
{
    lemma_first_nul(s);
    let p = field_output(s);
    let all = p + rest;
    let i = p.len() - 1;
    assert(all[i] == 0);
    assert forall|j: int| 0 <= j < i implies all[j] != 0 by {
        assert(all[j] == s[j]);
    }
    lemma_first_nul_is(all, i);
    assert(all.take(i + 1) =~= p);
}

/// `v` stands in the walk over the repaired body where `w` stood in the
/// walk over the original one: it has written the same bytes, has read as
/// many as it has written, and has added no terminator.
spec fn mirrors(v: BindWalk, w: BindWalk) -> bool {
    v.out == w.out && v.pos == w.out.len() && v.fixes == 0
}

proof fn lemma_mirror_string(w: BindWalk, v: BindWalk, body: Seq<u8>, again: Seq<u8>)
    requires
        0 <= w.pos <= body.len(),
        mirrors(v, w),
        walk_string(w, body).out.is_prefix_of(again),
    ensures
        mirrors(walk_string(v, again), walk_string(w, body)),
        0 <= walk_string(w, body).pos <= body.len(),
{
    let s = body.skip(w.pos);
    let p = field_output(s);
    let next = walk_string(w, body);
    let rest = again.skip(next.out.len() as int);
    lemma_first_nul(s);
    lemma_field_output_reads_back(s, rest);
    assert(again.skip(v.pos) =~= p + rest) by {
        assert(again.take(next.out.len() as int) == next.out);
        assert forall|j: int| 0 <= j < p.len() implies again[v.pos + j] == p[j] by {
            assert(again.take(next.out.len() as int)[v.pos + j] == next.out[v.pos + j]);
        }
    }
}

/// The walk over a repaired body writes the same body once more and adds no
/// terminator.
pub proof fn lemma_walk_of_repaired_body(body: Seq<u8>)
    ensures
        bind_walk(bind_walk(body).out).fixes == 0,
        bind_walk(bind_walk(body).out).out == bind_walk(body).out,
{
    let w0 = BindWalk { out: Seq::empty(), pos: 0, fixes: 0 };
    let w1 = walk_string(w0, body);
    let w2 = walk_string_if_left(w1, body);
    let w3 = walk_string_if_left(w2, body);
    let w4 = walk_fixed(w3, body);
    let w5 = walk_range(w3, w4, body);
    let w6 = walk_rest(w5, body);
    let again = w6.out;

    assert(w1.out.is_prefix_of(w2.out)) by {
        assert(w2.out.take(w1.out.len() as int) =~= w1.out);
    }
    assert(w2.out.is_prefix_of(w3.out)) by {
        assert(w3.out.take(w2.out.len() as int) =~= w2.out);
    }
    assert(w3.out.is_prefix_of(w4.out)) by {
        assert(w4.out.take(w3.out.len() as int) =~= w3.out);
    }
    assert(w4.out.is_prefix_of(w5.out)) by {
        assert(w5.out.take(w4.out.len() as int) =~= w4.out);
    }
    assert(w5.out.is_prefix_of(w6.out)) by {
        assert(w6.out.take(w5.out.len() as int) =~= w5.out);
    }
    assert(w4.out.is_prefix_of(again)) by {
        assert(again.take(w4.out.len() as int) =~= w4.out);
    }
    assert(w3.out.is_prefix_of(again)) by {
        assert(again.take(w3.out.len() as int) =~= w3.out);
    }
    assert(w2.out.is_prefix_of(again)) by {
        assert(again.take(w2.out.len() as int) =~= w2.out);
    }
    assert(w1.out.is_prefix_of(again)) by {
        assert(again.take(w1.out.len() as int) =~= w1.out);
    }

    assert(mirrors(w0, w0));
    let v1 = walk_string(w0, again);
    lemma_mirror_string(w0, w0, body, again);
    assert(mirrors(v1, w1));

    let v2 = walk_string_if_left(v1, again);
    if w1.pos < body.len() {
        lemma_mirror_string(w1, v1, body, again);
        lemma_field_output_reads_back(body.skip(w1.pos), Seq::empty());
        assert(v1.pos < again.len());
    } else {
        assert(again =~= w1.out);
    }
    assert(mirrors(v2, w2));
    assert(0 <= w2.pos <= body.len());

    let v3 = walk_string_if_left(v2, again);
    if w2.pos < body.len() {
        lemma_mirror_string(w2, v2, body, again);
        lemma_field_output_reads_back(body.skip(w2.pos), Seq::empty());
        assert(v2.pos < again.len());
    } else {
        assert(again =~= w2.out);
    }
    assert(mirrors(v3, w3));
    assert(0 <= w3.pos <= body.len());
    assert(v3 == walk_names(again));

    let v4 = walk_fixed(v3, again);
    let k = w4.pos - w3.pos;
    if w3.pos < body.len() {
        assert(again.take(w4.out.len() as int) == w4.out);
        if k < 3 {
            assert(again =~= w4.out);
        }
        assert(again.len() - v3.pos >= k);
        assert(again.subrange(v3.pos, v3.pos + k) =~= body.subrange(w3.pos, w3.pos + k)) by {
            assert forall|i: int| v3.pos <= i < v3.pos + k implies #[trigger] again[i] == body[i
                - v3.pos + w3.pos] by {
                assert(again.take(w4.out.len() as int)[i] == w4.out[i]);
            }
        }
        assert(v4.out =~= w4.out);
    } else {
        assert(again =~= w3.out);
    }
    assert(mirrors(v4, w4));
    assert(0 <= w4.pos <= body.len());
    assert(v4.pos - v3.pos == k);

    let v5 = walk_range(v3, v4, again);
    if k == 3 {
        lemma_mirror_string(w4, v4, body, again);
    }
    assert(mirrors(v5, w5));
    assert(0 <= w5.pos <= body.len());

    let v6 = walk_rest(v5, again);
    if w5.pos < body.len() {
        assert(again.skip(v5.pos) =~= body.skip(w5.pos));
        assert(v6.out =~= w6.out);
    } else {
        assert(again =~= w5.out);
    }
    assert(v6.fixes == 0);
    assert(v6.out =~= w6.out);
}

/// A repair keeps what follows the PDU: the repaired buffer declares the
/// length of the repaired PDU, keeps command id, status and sequence number,
/// and holds behind the PDU exactly the bytes that stood behind it before.
pub proof fn lemma_repair_keeps_tail(buf: Seq<u8>)
    requires
        repaired(buf) is Some,
    ensures
        ({
            let fixed = repaired(buf)->0;
            &&& HEADER_LENGTH <= declared_length(fixed) <= fixed.len()
            &&& fixed.subrange(4, HEADER_LENGTH as int) == buf.subrange(4, HEADER_LENGTH as int)
            &&& fixed.skip(declared_length(fixed)) == buf.skip(declared_length(buf))
            &&& fixed.subrange(HEADER_LENGTH as int, declared_length(fixed)) == bind_walk(
                buf.subrange(HEADER_LENGTH as int, declared_length(buf)),
            ).out
        }),
{
    let len = declared_length(buf);
    let w = bind_walk(buf.subrange(HEADER_LENGTH as int, len));
    let fixed = repaired(buf)->0;
    let n = HEADER_LENGTH + w.out.len();
    lemma_be_bytes_read_back(n);
    assert(fixed == be_bytes(n) + buf.subrange(4, HEADER_LENGTH as int) + w.out + buf.skip(len));
    assert(fixed[0] == be_bytes(n)[0] && fixed[1] == be_bytes(n)[1] && fixed[2] == be_bytes(n)[2]
        && fixed[3] == be_bytes(n)[3]);
    assert(declared_length(fixed) == n);
    assert(fixed.subrange(4, HEADER_LENGTH as int) =~= buf.subrange(4, HEADER_LENGTH as int));
    assert(fixed.skip(n) =~= buf.skip(len));
    assert(fixed.subrange(HEADER_LENGTH as int, n) =~= w.out);
}

/// A repair is idempotent: in a repaired buffer there is nothing left to
/// repair.
pub proof fn lemma_repair_is_idempotent(buf: Seq<u8>)
    requires
        repaired(buf) is Some,
    ensures
        repaired(repaired(buf)->0) is None,
{
    let body = buf.subrange(HEADER_LENGTH as int, declared_length(buf));
    let fixed = repaired(buf)->0;
    lemma_repair_keeps_tail(buf);
    lemma_walk_of_repaired_body(body);
    assert(command_id(fixed) == command_id(buf)) by {
        assert(fixed.subrange(4, HEADER_LENGTH as int)[0] == buf.subrange(4, HEADER_LENGTH as int)[0]);
        assert(fixed.subrange(4, HEADER_LENGTH as int)[1] == buf.subrange(4, HEADER_LENGTH as int)[1]);
        assert(fixed.subrange(4, HEADER_LENGTH as int)[2] == buf.subrange(4, HEADER_LENGTH as int)[2]);
        assert(fixed.subrange(4, HEADER_LENGTH as int)[3] == buf.subrange(4, HEADER_LENGTH as int)[3]);
    }
}

#[verifier::external_type_specification]
#[verifier::external_body]
pub struct ExBytesMut(BytesMut);

#[verifier::external_type_specification]
#[verifier::external_body]
pub struct ExWireCommand(rusmpp::Command);

/// The bytes that a buffer holds, in order.
pub uninterp spec fn buffer_bytes(buf: BytesMut) -> Seq<u8>;

/// Whether the wire decoder accepts `frame`, one complete PDU, header and
/// body.
pub uninterp spec fn body_decodes(frame: Seq<u8>) -> bool;

/// The command that the wire decoder reads from `frame`, one complete PDU
/// that it accepts.
pub uninterp spec fn decoded_command(frame: Seq<u8>) -> rusmpp::Command;

/// The text of the error with which the wire decoder refuses the PDU at the
/// start of `buf`.
pub uninterp spec fn decode_diagnostic(buf: Seq<u8>) -> Seq<char>;

/// The octets that the wire encoder writes for a command: the command
/// length, then id, status, sequence number and body.
pub uninterp spec fn command_encoding(item: rusmpp::Command) -> Seq<u8>;

/// Longest command that the decoder accepts.
pub const MAX_COMMAND_LENGTH: usize = 8192;

/// What the header at the start of a buffer says of its first PDU.
pub enum FrameStatus {
    /// The header, or the PDU that it declares, is not all there yet.
    Incomplete,
    /// The declared length is shorter than a header.
    TooShort,
    /// The declared length is over the limit.
    TooLong,
    /// The PDU is all there.
    Complete,
}

pub open spec fn frame_status(buf: Seq<u8>) -> FrameStatus {
    if buf.len() < HEADER_LENGTH {
        FrameStatus::Incomplete
    } else if declared_length(buf) < HEADER_LENGTH {
        FrameStatus::TooShort
    } else if declared_length(buf) > MAX_COMMAND_LENGTH {
        FrameStatus::TooLong
    } else if buf.len() < declared_length(buf) {
        FrameStatus::Incomplete
    } else {
        FrameStatus::Complete
    }
}

/// How an attempt to decode ends.
pub enum DecodeOutcome {
    /// More bytes are needed.
    Pending,
    /// This command was decoded.
    Frame(rusmpp::Command),
    /// The bytes are refused, with this text.
    Failed(Seq<char>),
}

/// How decoding of `buf` ends, given whether its first PDU decodes, the
/// command that it decodes to, and the text of the error where the decoder
/// refuses it.
pub open spec fn outcome_with(
    buf: Seq<u8>,
    decodes: bool,
    command: rusmpp::Command,
    diagnostic: Seq<char>,
) -> DecodeOutcome {
    match frame_status(buf) {
        FrameStatus::Incomplete => DecodeOutcome::Pending,
        FrameStatus::Complete => if decodes {
            DecodeOutcome::Frame(command)
        } else {
            DecodeOutcome::Failed(diagnostic)
        },
        _ => DecodeOutcome::Failed(diagnostic),
    }
}

/// How strict decoding of `buf` ends.
pub open spec fn strict_outcome(buf: Seq<u8>) -> DecodeOutcome {
    outcome_with(
        buf,
        body_decodes(buf.take(declared_length(buf))),
        decoded_command(buf.take(declared_length(buf))),
        decode_diagnostic(buf),
    )
}

/// What strict decoding leaves in the buffer: the bytes behind the PDU where
/// one was decoded, and all of `buf` where none was.
pub open spec fn strict_rest(buf: Seq<u8>) -> Seq<u8> {
    if strict_outcome(buf) is Frame {
        buf.skip(declared_length(buf))
    } else {
        buf
    }
}

/// rusmpp's `CommandCodec::new` and its `decode`, with the error given as
/// its `to_string`. The decoder waits for a header and for the PDU that the
/// header declares; it refuses a declared length under 16 or over 8192, and
/// a PDU that does not decode. What it decodes depends on the octets of the
/// PDU alone. Only a decoded PDU leaves the buffer.
#[verifier::external_body]
fn wire_decode(src: &mut BytesMut) -> (r: Result<Option<rusmpp::Command>, String>)
    ensures
        match outcome_with(
            buffer_bytes(*old(src)),
            body_decodes(buffer_bytes(*old(src)).take(declared_length(buffer_bytes(*old(src))))),
            decoded_command(
                buffer_bytes(*old(src)).take(declared_length(buffer_bytes(*old(src)))),
            ),
            decode_diagnostic(buffer_bytes(*old(src))),
        ) {
            DecodeOutcome::Pending => r matches Ok(None),
            DecodeOutcome::Frame(command) => r matches Ok(Some(got)) && got == command,
            DecodeOutcome::Failed(text) => r matches Err(e) && e@ == text,
        },
        buffer_bytes(*final(src)) == strict_rest(buffer_bytes(*old(src))),
{
    CommandCodec::new().decode(src).map_err(|e| e.to_string())
}

/// Whether `after` is `before` with one more PDU behind it: what was added
/// is at least a header long, and its first field declares its length (as
/// far as 32 bits hold it).
pub open spec fn appends_pdu(before: Seq<u8>, after: Seq<u8>) -> bool {
    &&& before.is_prefix_of(after)
    &&& after.len() - before.len() >= HEADER_LENGTH
    &&& declared_length(after.skip(before.len() as int)) == (after.len() - before.len())
        % 0x1_0000_0000
}

/// rusmpp's `CommandCodec::new` and its `encode`, with the error given as
/// its `to_string`. The encoder does not fail. It leaves what the buffer
/// holds and writes behind it the command length, which counts itself, and
/// then the command: id, status, sequence number and body.
#[verifier::external_body]
fn wire_encode(item: &rusmpp::Command, dst: &mut BytesMut) -> (r: Result<(), String>)
    ensures
        r is Ok,
        buffer_bytes(*final(dst)) == buffer_bytes(*old(dst)) + command_encoding(*item),
        appends_pdu(buffer_bytes(*old(dst)), buffer_bytes(*final(dst))),
{
    CommandCodec::new().encode(item, dst).map_err(|e| e.to_string())
}

/// `BytesMut::to_vec`: a copy of the bytes of the buffer.
#[verifier::external_body]
fn buffer_to_vec(buf: &BytesMut) -> (r: Vec<u8>)
    ensures
        r@ == buffer_bytes(*buf),
{
    buf.to_vec()
}

/// `BytesMut::from` a slice: a buffer that holds the bytes of the slice.
#[verifier::external_body]
fn buffer_from_slice(bytes: &[u8]) -> (r: BytesMut)
    ensures
        buffer_bytes(r) == bytes@,
{
    BytesMut::from(bytes)
}

/// Why a buffer could not be decoded, or a command not encoded.
#[derive(Debug, Clone, PartialEq, Eq)]
pub struct CodecError {
    pub message: String,
}

/// Whether the text of a decoding error speaks of a C-octet string, or of a
/// missing terminator.
pub open spec fn is_nul_diagnostic(text: Seq<char>) -> bool {
    occurs_in("Not null terminated"@, text) || occurs_in("COctetString"@, text)
}

/// Whether lenient decoding repairs `buf`: strict decoding refuses it with a
/// text that speaks of a missing terminator, and there is something to
/// repair.
pub open spec fn repairs(buf: Seq<u8>) -> bool {
    &&& strict_outcome(buf) matches DecodeOutcome::Failed(text)
    &&& is_nul_diagnostic(text)
    &&& repaired(buf) is Some
}

/// How lenient decoding of `buf` ends: as strict decoding does, but for a
/// buffer that it repairs, where it ends as strict decoding of the repaired
/// buffer does.
pub open spec fn lenient_outcome(buf: Seq<u8>) -> DecodeOutcome {
    if repairs(buf) {
        match strict_outcome(repaired(buf)->0) {
            DecodeOutcome::Failed(text) => DecodeOutcome::Failed(
                "SMPP 3.4 decode failed after fix attempt: "@ + text,
            ),
            outcome => outcome,
        }
    } else {
        strict_outcome(buf)
    }
}

/// What lenient decoding leaves in the buffer.
pub open spec fn lenient_rest(buf: Seq<u8>) -> Seq<u8> {
    if repairs(buf) {
        strict_rest(repaired(buf)->0)
    } else {
        strict_rest(buf)
    }
}

/// How a result of decoding ends.
pub open spec fn outcome_of(r: Result<Option<rusmpp::Command>, CodecError>) -> DecodeOutcome {
    match r {
        Ok(None) => DecodeOutcome::Pending,
        Ok(Some(command)) => DecodeOutcome::Frame(command),
        Err(e) => DecodeOutcome::Failed(e.message@),
    }
}

/// The codec of one connection.
#[derive(Debug)]
pub struct SmppCodec {
    version: SmppVersion,
}

impl SmppCodec {
    pub closed spec fn spec_version(&self) -> SmppVersion {
        self.version
    }

    /// A codec in the given mode.
    pub fn new(version: SmppVersion) -> (r: Self)
        ensures
            r.spec_version() == version,
    {
        SmppCodec { version }
    }

    /// The mode of the codec.
    pub fn version(&self) -> (r: SmppVersion)
        ensures
            r == self.spec_version(),
    {
        self.version
    }

    /// Decodes the PDU at the start of `src`, if it is all there, and takes
    /// it out of the buffer. In strict mode a PDU that does not decode is an
    /// error. In lenient mode a bind request that fails for a missing
    /// terminator is repaired and decoded once more; the repaired bytes then
    /// stand in the buffer in place of the original ones.
    pub fn decode(&self, src: &mut BytesMut) -> (r: Result<Option<rusmpp::Command>, CodecError>)
        ensures
            outcome_of(r) == match self.spec_version() {
                SmppVersion::V50 => strict_outcome(buffer_bytes(*old(src))),
                SmppVersion::V34 => lenient_outcome(buffer_bytes(*old(src))),
            },
            buffer_bytes(*final(src)) == match self.spec_version() {
                SmppVersion::V50 => strict_rest(buffer_bytes(*old(src))),
                SmppVersion::V34 => lenient_rest(buffer_bytes(*old(src))),
            },
    {
        match wire_decode(src) {
            Ok(decoded) => Ok(decoded),
            Err(text) => {
                let lenient = match self.version {
                    SmppVersion::V34 => true,
                    SmppVersion::V50 => false,
                };
                if lenient && (contains_text(text.as_str(), "Not null terminated") || contains_text(
                    text.as_str(),
                    "COctetString",
                )) {
                    let bytes = buffer_to_vec(src);
                    match try_fix_pdu_nulls(bytes.as_slice()) {
                        Some(fixed) => {
                            *src = buffer_from_slice(fixed.as_slice());
                            match wire_decode(src) {
                                Ok(decoded) => Ok(decoded),
                                Err(again) => {
                                    let mut message = String::from_str(
                                        "SMPP 3.4 decode failed after fix attempt: ",
                                    );
                                    message.append(again.as_str());
                                    Err(CodecError { message })
                                },
                            }
                        },
                        None => Err(CodecError { message: text }),
                    }
                } else {
                    Err(CodecError { message: text })
                }
            },
        }
    }

    /// Appends the encoding of `item` to `dst`, in the same way in both
    /// modes: one PDU, whose header declares its length, behind what the
    /// buffer held. Encoding does not fail.
    pub fn encode(&self, item: &rusmpp::Command, dst: &mut BytesMut) -> (r: Result<(), CodecError>)
        ensures
            r is Ok,
            buffer_bytes(*final(dst)) == buffer_bytes(*old(dst)) + command_encoding(*item),
            appends_pdu(buffer_bytes(*old(dst)), buffer_bytes(*final(dst))),
    {
        match wire_encode(item, dst) {
            Ok(()) => Ok(()),
            Err(message) => Err(CodecError { message }),
        }
    }
}

/// In lenient mode, a buffer that is repaired decodes as the repaired buffer
/// does in strict mode: the same command comes out, or more bytes are waited
/// for in both, and the same bytes are left behind. Where the repaired
/// buffer is refused, the error says so in front of the text of the strict
/// error.
pub proof fn lemma_lenient_decodes_as_strict_on_repaired(buf: Seq<u8>)
    requires
        repairs(buf),
    ensures
        !(strict_outcome(repaired(buf)->0) is Failed) ==> lenient_outcome(buf) == strict_outcome(
            repaired(buf)->0,
        ),
        strict_outcome(repaired(buf)->0) matches DecodeOutcome::Failed(text) ==> lenient_outcome(
            buf,
        ) == DecodeOutcome::Failed("SMPP 3.4 decode failed after fix attempt: "@ + text),
        lenient_rest(buf) == strict_rest(repaired(buf)->0),
{
}

} // verus!
