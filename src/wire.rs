//! The framed codec: each message is laid out as a run of varints, byte
//! stuffed so that it holds no zero, and ended by a single zero byte.
use vstd::prelude::*;
use crate::messages::{Command, Info, Log, Sensors, MAX_FRAME_SIZE};

verus! {

/// The zigzag map that sends signed integers to naturals: 0, -1, 1, -2, ...
/// become 0, 1, 2, 3, ...
pub open spec fn zigzag(v: i32) -> nat {
    if v >= 0 {
        (2 * v) as nat
    } else {
        (-2 * v - 1) as nat
    }
}

/// Little-endian base-128 encoding: seven bits per byte, the high bit set on
/// every byte but the last.
pub open spec fn varint(n: nat) -> Seq<u8>
    decreases n,
{
    if n < 128 {
        seq![n as u8]
    } else {
        seq![(n % 128 + 128) as u8] + varint(n / 128)
    }
}

/// The encoding of a signed field.
pub open spec fn varint_i32(v: i32) -> Seq<u8> {
    varint(zigzag(v))
}

/// The number of leading bytes of `x` that are not zero.
pub open spec fn run_len(x: Seq<u8>) -> nat
    decreases x.len(),
{
    if x.len() == 0 || x[0] == 0 {
        0
    } else {
        1 + run_len(x.drop_first())
    }
}

/// Byte stuffing of a payload of fewer than 254 bytes: each run of non-zero
/// bytes, up to the next zero or the end, is preceded by its length plus one,
/// and the zero itself is dropped.
pub open spec fn stuffed(x: Seq<u8>) -> Seq<u8>
    decreases x.len(),
{
    let n = run_len(x);
    if n >= x.len() {
        seq![(n + 1) as u8] + x
    } else {
        seq![(n + 1) as u8] + x.take(n as int) + stuffed(x.skip(n + 1 as int))
    }
}

/// A payload on the wire: stuffed, then terminated by a zero.
pub open spec fn framed(payload: Seq<u8>) -> Seq<u8> {
    stuffed(payload).push(0u8)
}

/// The fields of a tuple of five signed integers, in order.
pub open spec fn i32x5_payload(t: (i32, i32, i32, i32, i32)) -> Seq<u8> {
    varint_i32(t.0) + varint_i32(t.1) + varint_i32(t.2) + varint_i32(t.3) + varint_i32(t.4)
}

/// A tag followed by four signed integers.
pub open spec fn u32i32x4_payload(t: (u32, i32, i32, i32, i32)) -> Seq<u8> {
    varint(t.0 as nat) + varint_i32(t.1) + varint_i32(t.2) + varint_i32(t.3) + varint_i32(t.4)
}

/// A tag followed by an unsigned integer.
pub open spec fn u32x2_payload(t: (u32, u32)) -> Seq<u8> {
    varint(t.0 as nat) + varint(t.1 as nat)
}

/// The fields of a command, in declaration order.
pub open spec fn command_fields(c: Command) -> (i32, i32, i32, i32, i32) {
    (c.steering, c.fl_whl_rpm, c.fr_whl_rpm, c.rl_whl_rpm, c.rr_whl_rpm)
}

/// The command with the given fields.
pub open spec fn command_of_fields(t: (i32, i32, i32, i32, i32)) -> Command {
    Command { steering: t.0, fl_whl_rpm: t.1, fr_whl_rpm: t.2, rl_whl_rpm: t.3, rr_whl_rpm: t.4 }
}

/// The wire tag of the `Sensors` variant of `Info`.
pub const SENSORS_TAG: u32 = 0;

/// The wire tag of the `Log` variant of `Info`.
pub const LOG_TAG: u32 = 1;

/// The payload of a command: its five fields in declaration order.
pub open spec fn command_payload(c: Command) -> Seq<u8> {
    i32x5_payload(command_fields(c))
}

/// The payload of an info: the variant's tag, then its content.
pub open spec fn info_payload(i: Info) -> Seq<u8> {
    match i {
        Info::Sensors(s) => u32i32x4_payload(
            (SENSORS_TAG, s.fl_whl_rpm, s.fr_whl_rpm, s.rl_whl_rpm, s.rr_whl_rpm),
        ),
        Info::Log(l) => u32x2_payload((LOG_TAG, l.index() as u32)),
    }
}

/// The frame that carries a command.
pub open spec fn command_frame(c: Command) -> Seq<u8> {
    framed(command_payload(c))
}

/// The frame that carries an info.
pub open spec fn info_frame(i: Info) -> Seq<u8> {
    framed(info_payload(i))
}

/// What postcard decodes from a frame as five signed integers.
pub uninterp spec fn postcard_i32x5(frame: Seq<u8>) -> Option<(i32, i32, i32, i32, i32)>;

/// What postcard decodes from a frame as a tag and four signed integers.
pub uninterp spec fn postcard_u32i32x4(frame: Seq<u8>) -> Option<(u32, i32, i32, i32, i32)>;

/// What postcard decodes from a frame as two unsigned integers.
pub uninterp spec fn postcard_u32x2(frame: Seq<u8>) -> Option<(u32, u32)>;

/// Relies on postcard::to_allocvec_cobs on a tuple of five `i32`: postcard
/// writes the fields in order, each as the varint of its zigzag value; its
/// COBS flavor (cobs::EncoderState) stuffs those bytes and appends a zero.
/// The `Vec` flavor never runs out of room, so the call does not fail.
#[verifier::external_body]
fn frame_i32x5(t: (i32, i32, i32, i32, i32)) -> (r: Option<Vec<u8>>)
    ensures
        i32x5_payload(t).len() < 254 ==> r is Some && r->Some_0@ == framed(i32x5_payload(t)),
{
    postcard::to_allocvec_cobs(&t).ok()
}

/// Relies on postcard::to_allocvec_cobs on a `u32` and four `i32`: the
/// varint of the first, the varints of the zigzag values of the others,
/// stuffed by the COBS flavor and ended by a zero; the call does not fail.
#[verifier::external_body]
fn frame_u32i32x4(t: (u32, i32, i32, i32, i32)) -> (r: Option<Vec<u8>>)
    ensures
        u32i32x4_payload(t).len() < 254 ==> r is Some && r->Some_0@ == framed(u32i32x4_payload(t)),
{
    postcard::to_allocvec_cobs(&t).ok()
}

/// Relies on postcard::to_allocvec_cobs on two `u32`: their two varints,
/// stuffed by the COBS flavor and ended by a zero; the call does not fail.
#[verifier::external_body]
fn frame_u32x2(t: (u32, u32)) -> (r: Option<Vec<u8>>)
    ensures
        u32x2_payload(t).len() < 254 ==> r is Some && r->Some_0@ == framed(u32x2_payload(t)),
{
    postcard::to_allocvec_cobs(&t).ok()
}

/// Relies on postcard::from_bytes_cobs on a tuple of five `i32`
/// (cobs::decode_in_place, then from_bytes): the result depends on the bytes
/// alone, and the frame that to_allocvec_cobs makes of a tuple gives that
/// tuple back.
#[verifier::external_body]
fn unframe_i32x5(b: &[u8]) -> (r: Option<(i32, i32, i32, i32, i32)>)
    ensures
        r == postcard_i32x5(b@),
        forall|t: (i32, i32, i32, i32, i32)|
            #![trigger i32x5_payload(t)]
            i32x5_payload(t).len() < 254 && b@ == framed(i32x5_payload(t)) ==> r == Some(t),
{
    let mut copy = b.to_vec();
    postcard::from_bytes_cobs::<(i32, i32, i32, i32, i32)>(&mut copy).ok()
}

/// Relies on postcard::from_bytes_cobs on a `u32` and four `i32`
/// (cobs::decode_in_place, then from_bytes): the result depends on the bytes
/// alone, and the frame that to_allocvec_cobs makes of such a tuple gives it
/// back.
#[verifier::external_body]
fn unframe_u32i32x4(b: &[u8]) -> (r: Option<(u32, i32, i32, i32, i32)>)
    ensures
        r == postcard_u32i32x4(b@),
        forall|t: (u32, i32, i32, i32, i32)|
            #![trigger u32i32x4_payload(t)]
            u32i32x4_payload(t).len() < 254 && b@ == framed(u32i32x4_payload(t)) ==> r == Some(t),
{
    let mut copy = b.to_vec();
    postcard::from_bytes_cobs::<(u32, i32, i32, i32, i32)>(&mut copy).ok()
}

/// Relies on postcard::from_bytes_cobs on two `u32` (cobs::decode_in_place,
/// then from_bytes): the result depends on the bytes alone, and a frame
/// whose payload begins with the two varints of a pair gives that pair back,
/// whatever follows them, since from_bytes reads what the type needs and
/// leaves the rest unread.
#[verifier::external_body]
fn unframe_u32x2(b: &[u8]) -> (r: Option<(u32, u32)>)
    ensures
        r == postcard_u32x2(b@),
        forall|t: (u32, u32), rest: Seq<u8>|
            #![trigger framed(u32x2_payload(t) + rest)]
            (u32x2_payload(t) + rest).len() < 254 && b@ == framed(u32x2_payload(t) + rest) ==> r
                == Some(t),
{
    let mut copy = b.to_vec();
    postcard::from_bytes_cobs::<(u32, u32)>(&mut copy).ok()
}


/// 128 to the power `k`.
pub open spec fn radix_pow(k: nat) -> nat
    decreases k,
{
    if k == 0 {
        1
    } else {
        128 * radix_pow((k - 1) as nat)
    }
}

/// A number below 128 to the power `k` takes at most `k` bytes.
pub proof fn lemma_varint_len(n: nat, k: nat)
    requires
        1 <= k,
        n < radix_pow(k),
    ensures
        1 <= varint(n).len() <= k,
    decreases k,
{
    if n >= 128 {
        if k <= 1 {
            reveal_with_fuel(radix_pow, 2);
            assert(radix_pow(k) <= 128);
        } else {
            let k1 = (k - 1) as nat;
            let p = radix_pow(k1);
            assert(n < 128 * p);
            assert(n / 128 < p) by (nonlinear_arith)
                requires n < 128 * p;
            lemma_varint_len(n / 128, k1);
        }
    }
}

/// A 32-bit field takes one to five bytes.
pub proof fn lemma_varint_u32_len(n: nat)
    requires
        n < 0x1_0000_0000,
    ensures
        1 <= varint(n).len() <= 5,
{
    reveal_with_fuel(radix_pow, 6);
    lemma_varint_len(n, 5);
}

/// The zigzag image of an `i32` fits in 32 bits.
pub proof fn lemma_zigzag_bound(v: i32)
    ensures
        zigzag(v) < 0x1_0000_0000,
{
}

/// A signed field takes one to five bytes.
pub proof fn lemma_varint_i32_len(v: i32)
    ensures
        1 <= varint_i32(v).len() <= 5,
{
    lemma_zigzag_bound(v);
    lemma_varint_u32_len(zigzag(v));
}

/// The leading run holds no zero and, unless it is the whole sequence, is
/// followed by one.
pub proof fn lemma_run_len(x: Seq<u8>)
    ensures
        run_len(x) <= x.len(),
        forall|i: int| 0 <= i < run_len(x) ==> x[i] != 0,
        run_len(x) < x.len() ==> x[run_len(x) as int] == 0,
    decreases x.len(),
{
    if x.len() > 0 && x[0] != 0 {
        lemma_run_len(x.drop_first());
        assert forall|i: int| 0 <= i < run_len(x) implies x[i] != 0 by {
            if i > 0 {
                assert(x[i] == x.drop_first()[i - 1]);
            }
        }
    }
}

/// Stuffing adds exactly one byte and, on a payload shorter than 254 bytes,
/// leaves no zero.
pub proof fn lemma_stuffed(x: Seq<u8>)
    requires
        x.len() < 254,
    ensures
        stuffed(x).len() == x.len() + 1,
        forall|i: int| 0 <= i < stuffed(x).len() ==> stuffed(x)[i] != 0,
    decreases x.len(),
{
    lemma_run_len(x);
    let n = run_len(x);
    if n >= x.len() {
        let s = seq![(n + 1) as u8] + x;
        assert forall|i: int| 0 <= i < s.len() implies s[i] != 0 by {
            if i > 0 {
                assert(s[i] == x[i - 1]);
            }
        }
    } else {
        let rest = x.skip(n + 1 as int);
        lemma_stuffed(rest);
        let s = seq![(n + 1) as u8] + x.take(n as int) + stuffed(rest);
        assert forall|i: int| 0 <= i < s.len() implies s[i] != 0 by {
            if 0 < i <= n {
                assert(s[i] == x[i - 1]);
            } else if i > n {
                assert(s[i] == stuffed(rest)[i - n - 1]);
            }
        }
    }
}

/// A frame is one byte longer than its stuffing, and its only zero is its
/// last byte.
pub proof fn lemma_framed(payload: Seq<u8>)
    requires
        payload.len() < 254,
    ensures
        framed(payload).len() == payload.len() + 2,
        framed(payload).last() == 0,
        forall|i: int| 0 <= i < framed(payload).len() - 1 ==> framed(payload)[i] != 0,
{
    lemma_stuffed(payload);
}

/// A command payload takes five to twenty-five bytes.
pub proof fn lemma_i32x5_payload_len(t: (i32, i32, i32, i32, i32))
    ensures
        5 <= i32x5_payload(t).len() <= 25,
{
    lemma_varint_i32_len(t.0);
    lemma_varint_i32_len(t.1);
    lemma_varint_i32_len(t.2);
    lemma_varint_i32_len(t.3);
    lemma_varint_i32_len(t.4);
}

/// A sensors payload takes five to twenty-one bytes.
pub proof fn lemma_u32i32x4_payload_len(t: (u32, i32, i32, i32, i32))
    ensures
        5 <= u32i32x4_payload(t).len() <= 25,
{
    lemma_varint_u32_len(t.0 as nat);
    lemma_varint_i32_len(t.1);
    lemma_varint_i32_len(t.2);
    lemma_varint_i32_len(t.3);
    lemma_varint_i32_len(t.4);
}

/// A log payload takes two to ten bytes.
pub proof fn lemma_u32x2_payload_len(t: (u32, u32))
    ensures
        2 <= u32x2_payload(t).len() <= 10,
{
    lemma_varint_u32_len(t.0 as nat);
    lemma_varint_u32_len(t.1 as nat);
}


/// A command frame fits the largest frame size, and its only zero is its
/// terminator.
pub proof fn lemma_command_frame(c: Command)
    ensures
        command_frame(c).len() <= MAX_FRAME_SIZE,
        command_frame(c).last() == 0,
        forall|i: int| 0 <= i < command_frame(c).len() - 1 ==> command_frame(c)[i] != 0,
{
    lemma_i32x5_payload_len(command_fields(c));
    lemma_framed(command_payload(c));
}

/// An info frame fits the largest frame size, and its only zero is its
/// terminator.
pub proof fn lemma_info_frame(i: Info)
    ensures
        info_frame(i).len() <= MAX_FRAME_SIZE,
        info_frame(i).last() == 0,
        forall|j: int| 0 <= j < info_frame(i).len() - 1 ==> info_frame(i)[j] != 0,
{
    match i {
        Info::Sensors(s) => {
            lemma_u32i32x4_payload_len((SENSORS_TAG, s.fl_whl_rpm, s.fr_whl_rpm, s.rl_whl_rpm, s.rr_whl_rpm));
        },
        Info::Log(l) => {
            lemma_u32x2_payload_len((LOG_TAG, l.index() as u32));
        },
    }
    lemma_framed(info_payload(i));
}

/// Undoes the byte stuffing: each code byte gives the length of the run
/// after it plus one, and every run but the last was followed by a zero.
pub open spec fn unstuffed(y: Seq<u8>) -> Seq<u8>
    decreases y.len(),
{
    if y.len() == 0 || y[0] == 0 {
        Seq::empty()
    } else {
        let k = y[0] - 1;
        if 1 + k >= y.len() {
            y.skip(1)
        } else {
            y.subrange(1, 1 + k) + seq![0u8] + unstuffed(y.skip(1 + k))
        }
    }
}

/// Stuffing is undone by `unstuffed`.
pub proof fn lemma_unstuffed(x: Seq<u8>)
    requires
        x.len() < 254,
    ensures
        unstuffed(stuffed(x)) == x,
    decreases x.len(),
{
    lemma_run_len(x);
    let n = run_len(x);
    let y = stuffed(x);
    if n >= x.len() {
        assert(y.skip(1) =~= x);
    } else {
        let rest = x.skip(n + 1 as int);
        lemma_stuffed(rest);
        lemma_unstuffed(rest);
        assert(y.subrange(1, 1 + n as int) =~= x.take(n as int));
        assert(y.skip(1 + n as int) =~= stuffed(rest));
        assert(x.take(n as int) + seq![0u8] + rest =~= x);
    }
}

/// Two payloads with the same frame are the same.
pub proof fn lemma_framed_injective(a: Seq<u8>, b: Seq<u8>)
    requires
        a.len() < 254,
        b.len() < 254,
        framed(a) == framed(b),
    ensures
        a == b,
{
    assert(stuffed(a) =~= framed(a).drop_last());
    assert(stuffed(b) =~= framed(b).drop_last());
    lemma_unstuffed(a);
    lemma_unstuffed(b);
}

/// A varint ends where it says it ends: what starts with one varint starts
/// with no other, and the bytes after it are the same.
pub proof fn lemma_varint_prefix(n1: nat, r1: Seq<u8>, n2: nat, r2: Seq<u8>)
    requires
        varint(n1) + r1 == varint(n2) + r2,
    ensures
        n1 == n2,
        r1 == r2,
    decreases n1,
{
    let s = varint(n1) + r1;
    assert(s[0] == varint(n1)[0]);
    assert(s[0] == varint(n2)[0]);
    if n1 < 128 {
        if n2 >= 128 {
            assert(varint(n2)[0] == (n2 % 128 + 128) as u8);
        }
        assert(r1 =~= s.drop_first());
        assert(r2 =~= s.drop_first());
    } else {
        assert(n2 >= 128);
        assert(varint(n1).drop_first() =~= varint(n1 / 128));
        assert(varint(n2).drop_first() =~= varint(n2 / 128));
        assert(s.drop_first() =~= varint(n1 / 128) + r1);
        assert(s.drop_first() =~= varint(n2 / 128) + r2);
        lemma_varint_prefix(n1 / 128, r1, n2 / 128, r2);
        assert(n1 % 128 == n2 % 128);
        assert(n1 == 128 * (n1 / 128) + n1 % 128);
        assert(n2 == 128 * (n2 / 128) + n2 % 128);
    }
}

/// The zigzag map sends distinct integers to distinct naturals.
pub proof fn lemma_zigzag_injective(a: i32, b: i32)
    requires
        zigzag(a) == zigzag(b),
    ensures
        a == b,
{
}

/// Two signed fields followed by whatever: the same bytes mean the same
/// field and the same rest.
proof fn lemma_field_prefix(a: i32, r1: Seq<u8>, b: i32, r2: Seq<u8>)
    requires
        varint_i32(a) + r1 == varint_i32(b) + r2,
    ensures
        a == b,
        r1 == r2,
{
    lemma_varint_prefix(zigzag(a), r1, zigzag(b), r2);
    lemma_zigzag_injective(a, b);
}

/// Different commands have different frames: a frame determines its command.
pub proof fn lemma_command_frame_injective(a: Command, b: Command)
    requires
        command_frame(a) == command_frame(b),
    ensures
        a == b,
{
    lemma_i32x5_payload_len(command_fields(a));
    lemma_i32x5_payload_len(command_fields(b));
    lemma_framed_injective(command_payload(a), command_payload(b));
    lemma_five_fields_injective(command_fields(a), command_fields(b));
}

proof fn lemma_five_fields_injective(a: (i32, i32, i32, i32, i32), b: (i32, i32, i32, i32, i32))
    requires
        i32x5_payload(a) == i32x5_payload(b),
    ensures
        a == b,
{
    let f1 = varint_i32(a.1) + varint_i32(a.2) + varint_i32(a.3) + varint_i32(a.4);
    let f2 = varint_i32(b.1) + varint_i32(b.2) + varint_i32(b.3) + varint_i32(b.4);
    assert(i32x5_payload(a) =~= varint_i32(a.0) + f1);
    assert(i32x5_payload(b) =~= varint_i32(b.0) + f2);
    lemma_field_prefix(a.0, f1, b.0, f2);
    lemma_four_fields_injective(a.1, a.2, a.3, a.4, b.1, b.2, b.3, b.4);
}

proof fn lemma_four_fields_injective(a1: i32, a2: i32, a3: i32, a4: i32, b1: i32, b2: i32, b3: i32, b4: i32)
    requires
        varint_i32(a1) + varint_i32(a2) + varint_i32(a3) + varint_i32(a4) == varint_i32(b1) + varint_i32(b2)
            + varint_i32(b3) + varint_i32(b4),
    ensures
        a1 == b1 && a2 == b2 && a3 == b3 && a4 == b4,
{
    let ra = varint_i32(a2) + varint_i32(a3) + varint_i32(a4);
    let rb = varint_i32(b2) + varint_i32(b3) + varint_i32(b4);
    assert(varint_i32(a1) + varint_i32(a2) + varint_i32(a3) + varint_i32(a4) =~= varint_i32(a1) + ra);
    assert(varint_i32(b1) + varint_i32(b2) + varint_i32(b3) + varint_i32(b4) =~= varint_i32(b1) + rb);
    lemma_field_prefix(a1, ra, b1, rb);
    let sa = varint_i32(a3) + varint_i32(a4);
    let sb = varint_i32(b3) + varint_i32(b4);
    assert(ra =~= varint_i32(a2) + sa);
    assert(rb =~= varint_i32(b2) + sb);
    lemma_field_prefix(a2, sa, b2, sb);
    lemma_field_prefix(a3, varint_i32(a4), b3, varint_i32(b4));
    assert(varint_i32(a4) + Seq::<u8>::empty() =~= varint_i32(a4));
    assert(varint_i32(b4) + Seq::<u8>::empty() =~= varint_i32(b4));
    lemma_field_prefix(a4, Seq::empty(), b4, Seq::empty());
}

/// Different infos have different frames: a frame determines its info.
pub proof fn lemma_info_frame_injective(a: Info, b: Info)
    requires
        info_frame(a) == info_frame(b),
    ensures
        a == b,
{
    lemma_info_frame(a);
    lemma_info_frame(b);
    match a {
        Info::Sensors(s) => lemma_u32i32x4_payload_len((SENSORS_TAG, s.fl_whl_rpm, s.fr_whl_rpm, s.rl_whl_rpm, s.rr_whl_rpm)),
        Info::Log(l) => lemma_u32x2_payload_len((LOG_TAG, l.index() as u32)),
    }
    match b {
        Info::Sensors(s) => lemma_u32i32x4_payload_len((SENSORS_TAG, s.fl_whl_rpm, s.fr_whl_rpm, s.rl_whl_rpm, s.rr_whl_rpm)),
        Info::Log(l) => lemma_u32x2_payload_len((LOG_TAG, l.index() as u32)),
    }
    lemma_framed_injective(info_payload(a), info_payload(b));
    let (ta, ra) = info_tag_rest(a);
    let (tb, rb) = info_tag_rest(b);
    lemma_varint_prefix(ta, ra, tb, rb);
    match a {
        Info::Sensors(s) => {
            if let Info::Sensors(t) = b {
                lemma_four_fields_injective(s.fl_whl_rpm, s.fr_whl_rpm, s.rl_whl_rpm, s.rr_whl_rpm, t.fl_whl_rpm, t.fr_whl_rpm, t.rl_whl_rpm, t.rr_whl_rpm);
            }
        },
        Info::Log(l) => {
            if let Info::Log(m) = b {
                assert(varint(l.index()) + Seq::<u8>::empty() =~= varint(l.index()));
                assert(varint(m.index()) + Seq::<u8>::empty() =~= varint(m.index()));
                lemma_varint_prefix(l.index(), Seq::empty(), m.index(), Seq::empty());
            }
        },
    }
}

/// The tag of an info and the bytes after it.
proof fn info_tag_rest(i: Info) -> (r: (nat, Seq<u8>))
    ensures
        info_payload(i) == varint(r.0) + r.1,
        r.0 == (if i is Sensors { SENSORS_TAG as nat } else { LOG_TAG as nat }),
        i matches Info::Sensors(s) ==> r.1 == varint_i32(s.fl_whl_rpm) + varint_i32(s.fr_whl_rpm) + varint_i32(s.rl_whl_rpm) + varint_i32(s.rr_whl_rpm),
        i matches Info::Log(l) ==> r.1 == varint(l.index()),
{
    match i {
        Info::Sensors(s) => {
            let rest = varint_i32(s.fl_whl_rpm) + varint_i32(s.fr_whl_rpm) + varint_i32(s.rl_whl_rpm) + varint_i32(s.rr_whl_rpm);
            assert(info_payload(i) =~= varint(SENSORS_TAG as nat) + rest);
            (SENSORS_TAG as nat, rest)
        },
        Info::Log(l) => {
            lemma_log_index(l);
            (LOG_TAG as nat, varint(l.index()))
        },
    }
}

/// A message with a frame on the wire.
pub trait Message: Sized {
    /// The frame that carries the message.
    spec fn frame(&self) -> Seq<u8>;

    /// What decoding makes of the given bytes.
    spec fn decoded(bytes: Seq<u8>) -> Result<Self, Log>;

    /// Encodes the message as a frame.
    fn to_frame(&self) -> (r: Vec<u8>)
        ensures
            r@ == self.frame(),
            r@.len() <= MAX_FRAME_SIZE,
    ;

    /// Decodes a frame; a frame made by `to_frame` gives its message back.
    fn from_frame(bytes: &[u8]) -> (r: Result<Self, Log>)
        ensures
            r == Self::decoded(bytes@),
            forall|m: Self| #![trigger m.frame()] bytes@ == m.frame() ==> r == Ok::<Self, Log>(m),
    ;
}

/// The decoding of a command frame.
pub open spec fn command_decoded(bytes: Seq<u8>) -> Result<Command, Log> {
    match postcard_i32x5(bytes) {
        Some(t) => Ok(command_of_fields(t)),
        None => Err(Log::DeserializationError),
    }
}

/// The decoding of an info frame: the tag is read first, then the content
/// of the variant it names.
pub open spec fn info_decoded(bytes: Seq<u8>) -> Result<Info, Log> {
    match postcard_u32x2(bytes) {
        Some(head) => if head.0 == LOG_TAG {
            match Log::spec_from_index(head.1 as nat) {
                Some(l) => Ok(Info::Log(l)),
                None => Err(Log::DeserializationError),
            }
        } else if head.0 == SENSORS_TAG {
            match postcard_u32i32x4(bytes) {
                Some(t) => Ok(
                    Info::Sensors(
                        Sensors { fl_whl_rpm: t.1, fr_whl_rpm: t.2, rl_whl_rpm: t.3, rr_whl_rpm: t.4 },
                    ),
                ),
                None => Err(Log::DeserializationError),
            }
        } else {
            Err(Log::DeserializationError)
        },
        None => Err(Log::DeserializationError),
    }
}

/// The tag of each log names it back.
pub proof fn lemma_log_index(l: Log)
    ensures
        Log::spec_from_index(l.index()) == Some(l),
        l.index() < 8,
{
}

impl Message for Command {
    open spec fn frame(&self) -> Seq<u8> {
        command_frame(*self)
    }

    open spec fn decoded(bytes: Seq<u8>) -> Result<Command, Log> {
        command_decoded(bytes)
    }

    fn to_frame(&self) -> (r: Vec<u8>) {
        let t = (self.steering, self.fl_whl_rpm, self.fr_whl_rpm, self.rl_whl_rpm, self.rr_whl_rpm);
        proof {
            lemma_i32x5_payload_len(t);
            lemma_framed(i32x5_payload(t));
        }
        match frame_i32x5(t) {
            Some(v) => v,
            None => {
                proof {
                    assert(false);
                }
                Vec::new()
            },
        }
    }

    fn from_frame(bytes: &[u8]) -> (r: Result<Command, Log>) {
        let r = match unframe_i32x5(bytes) {
            Some(t) => Ok(Command { steering: t.0, fl_whl_rpm: t.1, fr_whl_rpm: t.2, rl_whl_rpm: t.3, rr_whl_rpm: t.4 }),
            None => Err(Log::DeserializationError),
        };
        proof {
            assert forall|m: Command| #![trigger m.frame()] bytes@ == m.frame() implies r == Ok::<Command, Log>(m) by {
                lemma_i32x5_payload_len(command_fields(m));
                assert(bytes@ == framed(i32x5_payload(command_fields(m))));
            }
        }
        r
    }
}

impl Message for Info {
    open spec fn frame(&self) -> Seq<u8> {
        info_frame(*self)
    }

    open spec fn decoded(bytes: Seq<u8>) -> Result<Info, Log> {
        info_decoded(bytes)
    }

    fn to_frame(&self) -> (r: Vec<u8>) {
        let o = match self {
            Info::Sensors(s) => {
                let t = (SENSORS_TAG, s.fl_whl_rpm, s.fr_whl_rpm, s.rl_whl_rpm, s.rr_whl_rpm);
                proof {
                    lemma_u32i32x4_payload_len(t);
                    lemma_framed(u32i32x4_payload(t));
                }
                frame_u32i32x4(t)
            },
            Info::Log(l) => {
                let t = (LOG_TAG, l.to_index());
                proof {
                    lemma_u32x2_payload_len(t);
                    lemma_framed(u32x2_payload(t));
                }
                frame_u32x2(t)
            },
        };
        match o {
            Some(v) => v,
            None => {
                proof {
                    assert(false);
                }
                Vec::new()
            },
        }
    }

    fn from_frame(bytes: &[u8]) -> (r: Result<Info, Log>) {
        let r = match unframe_u32x2(bytes) {
            Some(head) => {
                if head.0 == LOG_TAG {
                    match Log::from_index(head.1) {
                        Some(l) => Ok(Info::Log(l)),
                        None => Err(Log::DeserializationError),
                    }
                } else if head.0 == SENSORS_TAG {
                    match unframe_u32i32x4(bytes) {
                        Some(t) => Ok(
                            Info::Sensors(
                                Sensors { fl_whl_rpm: t.1, fr_whl_rpm: t.2, rl_whl_rpm: t.3, rr_whl_rpm: t.4 },
                            ),
                        ),
                        None => Err(Log::DeserializationError),
                    }
                } else {
                    Err(Log::DeserializationError)
                }
            },
            None => Err(Log::DeserializationError),
        };
        proof {
            assert forall|m: Info| #![trigger m.frame()] bytes@ == m.frame() implies r == Ok::<Info, Log>(m) by {
                match m {
                    Info::Log(l) => {
                        let t = (LOG_TAG, l.index() as u32);
                        lemma_u32x2_payload_len(t);
                        lemma_log_index(l);
                        let rest = Seq::<u8>::empty();
                        assert(u32x2_payload(t) + rest =~= u32x2_payload(t));
                        assert(bytes@ == framed(u32x2_payload(t) + rest));
                    },
                    Info::Sensors(s) => {
                        let t = (SENSORS_TAG, s.fl_whl_rpm, s.fr_whl_rpm, s.rl_whl_rpm, s.rr_whl_rpm);
                        lemma_u32i32x4_payload_len(t);
                        lemma_zigzag_bound(s.fl_whl_rpm);
                        let head = (SENSORS_TAG, zigzag(s.fl_whl_rpm) as u32);
                        let rest = varint_i32(s.fr_whl_rpm) + varint_i32(s.rl_whl_rpm) + varint_i32(s.rr_whl_rpm);
                        assert(u32x2_payload(head) + rest =~= u32i32x4_payload(t));
                        assert(bytes@ == framed(u32x2_payload(head) + rest));
                        assert(bytes@ == framed(u32i32x4_payload(t)));
                    },
                }
            }
        }
        r
    }
}

/// Serializes the message into the start of `buffer` and returns the length
/// of its frame; fails, leaving the buffer as it was, when the frame does not
/// fit.
pub fn serialize<M: Message>(message: &M, buffer: &mut [u8]) -> (r: Result<usize, Log>)
    ensures
        message.frame().len() <= old(buffer)@.len() <==> r is Ok,
        r matches Ok(n) ==> n == message.frame().len() && final(buffer)@ == message.frame()
            + old(buffer)@.skip(n as int),
        r is Err ==> r == Err::<usize, Log>(Log::SerializationError) && final(buffer)@ == old(buffer)@,
{
    let f = message.to_frame();
    if f.len() > buffer.len() {
        return Err(Log::SerializationError);
    }
    let mut i: usize = 0;
    while i < f.len()
        invariant
            i <= f@.len() <= buffer@.len(),
            buffer@.len() == old(buffer)@.len(),
            forall|j: int| 0 <= j < i ==> buffer@[j] == f@[j],
            forall|j: int| i <= j < buffer@.len() ==> buffer@[j] == old(buffer)@[j],
        decreases f@.len() - i,
    {
        buffer[i] = f[i];
        i = i + 1;
    }
    assert(buffer@ =~= f@ + old(buffer)@.skip(f@.len() as int));
    Ok(f.len())
}

/// Deserializes a frame; a frame that `serialize` wrote gives its message
/// back.
pub fn deserialize<M: Message>(buffer: &[u8]) -> (r: Result<M, Log>)
    ensures
        r == M::decoded(buffer@),
        forall|m: M| #![trigger m.frame()] buffer@ == m.frame() ==> r == Ok::<M, Log>(m),
{
    M::from_frame(buffer)
}

} // verus!
