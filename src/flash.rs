//! The flash programming sequence: begin, data blocks padded to the block
//! size, end, and verification of the written range by checksum.
use vstd::prelude::*;
use crate::error::EspLoaderError;
use crate::port::{Port, loader_port_start_timer, loader_port_debug_print};
use vstd::string::StrSliceExecFns;
use crate::comm::{
    Command, execute_unit, exchanged, reply_on, frame_of, unit_result, digest_result,
    data_frame, push_all, loader_md5_cmd, rest_after, check_response, RESPONSE_SIZE, OP_FLASH_DATA,
};
use crate::loader::{
    timed, start_timer_default, timeout_per_mb, timeout_per_mb_spec, detect_flash_size, detect_flash_spec, detect_flash_frames,
    link_progress, link_extends, ends_with, DEFAULT_TIMEOUT, ERASE_REGION_TIMEOUT_PER_MB,
    MD5_TIMEOUT_PER_MB,
};
use crate::slip::decode_spec;
use crate::checksum::{md5_final, md5_of, verify_digest, digest_check, hexify, hex_spec};

verus! {

/// Largest block: a flash-data request must fit in one request.
pub const MAX_BLOCK_SIZE: u32 = 0xFFEF;
/// Fill byte of the unused end of a final block.
pub const PADDING_PATTERN: u8 = 0xFF;
/// Padding is sent in chunks of at most this many bytes.
pub const PADDING_CHUNK: usize = 32;

/// One flash programming session, from flash-start to verification.
pub struct FlashSession {
    /// Bytes each flash-write transmits.
    pub block_size: u32,
    pub blocks_to_write: u32,
    /// Bytes the device erases: whole blocks.
    pub erase_size: u32,
    pub start_address: u32,
    pub image_size: u32,
    /// Sequence number of the next flash-data request.
    pub sequence: u32,
    /// Every byte transmitted so far, padding included: what the checksum covers.
    pub checksum_input: Vec<u8>,
}

impl FlashSession {
    pub open spec fn wf(&self) -> bool {
        1 <= self.block_size <= MAX_BLOCK_SIZE
    }
}

pub open spec fn ceil_div(a: u32, b: u32) -> int {
    (a as int + b as int - 1) / b as int
}

pub open spec fn next_seq(s: u32) -> u32 {
    if s == u32::MAX {
        0
    } else {
        (s + 1) as u32
    }
}

/// `n` fill bytes.
pub open spec fn padding(n: nat) -> Seq<u8> {
    Seq::new(n, |i: int| PADDING_PATTERN)
}

pub open spec fn chunk_len(n: nat) -> nat {
    if n < PADDING_CHUNK {
        n
    } else {
        PADDING_CHUNK as nat
    }
}

/// The flash-data frames that send `n` fill bytes, starting at sequence number `s`.
pub open spec fn padding_frames(s: u32, n: nat) -> Seq<u8>
    decreases n,
{
    if n == 0 {
        Seq::empty()
    } else {
        data_frame(s, padding(chunk_len(n))) + padding_frames(next_seq(s), (n - chunk_len(n)) as nat)
    }
}

/// The sequence number after sending `n` fill bytes from sequence number `s`.
pub open spec fn padding_end_seq(s: u32, n: nat) -> u32
    decreases n,
{
    if n == 0 {
        s
    } else {
        padding_end_seq(next_seq(s), (n - chunk_len(n)) as nat)
    }
}

/// Sending no fill bytes takes no request; sending some takes at least one,
/// which carries the first chunk.
pub proof fn lemma_padding_frames(s: u32, n: nat)
    ensures
        n == 0 ==> padding_frames(s, n) == Seq::<u8>::empty(),
        n > 0 ==> padding_frames(s, n) == data_frame(s, padding(chunk_len(n))) + padding_frames(
            next_seq(s),
            (n - chunk_len(n)) as nat,
        ),
        n > 0 ==> 1 <= chunk_len(n) <= PADDING_CHUNK,
{
}

pub open spec fn begin_cmd(offset: u32, image_size: u32, block_size: u32) -> Command {
    Command::FlashBegin {
        erase_size: (block_size as int * ceil_div(image_size, block_size)) as u32,
        packet_count: ceil_div(image_size, block_size) as u32,
        packet_size: block_size,
        offset,
    }
}

/// Starting a session on the stream `s`: the outcome, what is left of the
/// stream, and the frames written. The probe comes first; an image larger
/// than a detected flash stops there; a detected size is sent before
/// flash-begin; a failed detection sends flash-begin alone.
pub open spec fn flash_start_spec(s: Seq<u8>, offset: u32, image_size: u32, block_size: u32) -> (Result<(), EspLoaderError>, Seq<u8>, Seq<u8>) {
    let (d, s1) = detect_flash_spec(s);
    let f1 = detect_flash_frames(s);
    let begin = begin_cmd(offset, image_size, block_size);
    match d {
        Ok(flash_size) => if image_size > flash_size {
            (Err(EspLoaderError::ImageSize), s1, f1)
        } else {
            let params = Command::SpiSetParams { total_size: flash_size };
            let s2 = rest_after(s1, params);
            match unit_result(reply_on(s1, params)) {
                Err(e) => (Err(e), s2, f1 + frame_of(params)),
                Ok(()) => (
                    unit_result(reply_on(s2, begin)),
                    rest_after(s2, begin),
                    f1 + frame_of(params) + frame_of(begin),
                ),
            }
        },
        Err(_) => (unit_result(reply_on(s1, begin)), rest_after(s1, begin), f1 + frame_of(begin)),
    }
}

pub open spec fn session_outcome(r: Result<FlashSession, EspLoaderError>) -> Result<(), EspLoaderError> {
    match r {
        Ok(_) => Ok(()),
        Err(e) => Err(e),
    }
}

/// Starts a session writing `image_size` bytes at `offset` in blocks of
/// `block_size`. Where the flash size can be detected, an image larger than
/// the flash is refused and the size is sent to the device; where it cannot,
/// the session goes on without that check. The erase timer scales with the
/// erase size.
pub fn esp_loader_flash_start(port: &mut Port, offset: u32, image_size: u32, block_size: u32) -> (r: Result<FlashSession, EspLoaderError>)
    requires
        old(port).wf(),
        1 <= block_size <= MAX_BLOCK_SIZE,
        block_size as int * ceil_div(image_size, block_size) <= u32::MAX,
    ensures
        link_progress(*old(port), Port { debug: old(port).debug, ..*final(port) }),
        final(port).debug@.take(old(port).debug@.len() as int) == old(port).debug@,
        final(port).debug@.len() == old(port).debug@.len() + if detect_flash_spec(old(port).pending()).0 is Err {
            1nat
        } else {
            0nat
        },
        ({
            let (res, rest, frames) = flash_start_spec(old(port).pending(), offset, image_size, block_size);
            &&& session_outcome(r) == res
            &&& final(port).pending() == rest
            &&& final(port).tx@ == old(port).tx@ + frames
        }),
        r is Ok ==> ({
            let sess = r->Ok_0;
            &&& sess.wf()
            &&& sess.block_size == block_size
            &&& sess.blocks_to_write == ceil_div(image_size, block_size)
            &&& sess.erase_size == block_size * sess.blocks_to_write
            &&& sess.start_address == offset
            &&& sess.image_size == image_size
            &&& sess.sequence == 0
            &&& sess.checksum_input@ == Seq::<u8>::empty()
            &&& final(port).timer_ms == timeout_per_mb_spec(sess.erase_size, ERASE_REGION_TIMEOUT_PER_MB)
            &&& ends_with(final(port).tx@, frame_of(begin_cmd(offset, image_size, block_size)))
        }),
{
    let blocks64: u64 = (image_size as u64 + block_size as u64 - 1) / block_size as u64;
    assert(blocks64 <= u32::MAX) by (nonlinear_arith)
        requires
            blocks64 == (image_size as int + block_size as int - 1) / block_size as int,
            block_size >= 1,
            image_size <= u32::MAX,
    ;
    let blocks_to_write: u32 = blocks64 as u32;
    let erase_size: u32 = block_size * blocks_to_write;
    match detect_flash_size(port) {
        Ok(flash_size) => {
            if image_size > flash_size {
                return Err(EspLoaderError::ImageSize);
            }
            start_timer_default(port);
            match execute_unit(port, &Command::SpiSetParams { total_size: flash_size }) {
                Ok(()) => {},
                Err(e) => {
                    return Err(e);
                },
            }
        },
        Err(_) => {
            let msg = "Flash size detection failed, falling back to default".as_bytes_vec();
            let ghost d0 = port.debug@;
            loader_port_debug_print(port, msg.as_slice());
            proof {
                assert(port.debug@.take(d0.len() as int) =~= d0);
            }
        },
    }
    let session = FlashSession {
        block_size,
        blocks_to_write,
        erase_size,
        start_address: offset,
        image_size,
        sequence: 0,
        checksum_input: Vec::new(),
    };
    loader_port_start_timer(port, timeout_per_mb(erase_size, ERASE_REGION_TIMEOUT_PER_MB));
    match execute_unit(
        port,
        &Command::FlashBegin {
            erase_size,
            packet_count: blocks_to_write,
            packet_size: block_size,
            offset,
        },
    ) {
        Ok(()) => {
            proof {
                let f = frame_of(begin_cmd(offset, image_size, block_size));
                assert(port.tx@.skip(port.tx@.len() - f.len()) =~= f);
            }
            Ok(session)
        },
        Err(e) => Err(e),
    }
}

/// `n` fill bytes.
fn fill(n: usize) -> (r: Vec<u8>)
    ensures
        r@ == padding(n as nat),
{
    let mut out: Vec<u8> = Vec::new();
    let mut i: usize = 0;
    while i < n
        invariant
            i <= n,
            out@ == padding(i as nat),
        decreases n - i,
    {
        out.push(PADDING_PATTERN);
        proof {
            assert(out@ =~= padding((i + 1) as nat));
        }
        i += 1;
    }
    out
}

fn next_sequence(s: u32) -> (r: u32)
    ensures
        r == next_seq(s),
{
    if s == u32::MAX {
        0
    } else {
        s + 1
    }
}

/// The checked reply to a flash-data request on the stream `s`.
pub open spec fn data_reply(s: Seq<u8>) -> Result<(), EspLoaderError> {
    unit_result(check_response(decode_spec(s, RESPONSE_SIZE as nat).0, OP_FLASH_DATA))
}

/// What is left of the stream `s` once a flash-data reply was read.
pub open spec fn data_rest(s: Seq<u8>) -> Seq<u8> {
    s.skip(decode_spec(s, RESPONSE_SIZE as nat).1 as int)
}

/// Sending `n` fill bytes from sequence number `q` on the stream `s`, one
/// chunk per request, stopping at the first failed request: the outcome,
/// what is left of the stream, the frames written, how many fill bytes went
/// into the checksum (a chunk counts once it is about to be sent), and the
/// next sequence number.
pub open spec fn padding_spec(s: Seq<u8>, q: u32, n: nat) -> (Result<(), EspLoaderError>, Seq<u8>, Seq<u8>, nat, u32)
    decreases n,
{
    if n == 0 {
        (Ok(()), s, Seq::empty(), 0, q)
    } else {
        let k = chunk_len(n);
        let f = data_frame(q, padding(k));
        let r = data_reply(s);
        if r is Err {
            (r, data_rest(s), f, k, q)
        } else {
            let (r2, s2, f2, m2, q2) = padding_spec(data_rest(s), next_seq(q), (n - k) as nat);
            (r2, s2, f + f2, k + m2, q2)
        }
    }
}

/// Writing one block of `block_size` bytes holding `payload` from sequence
/// number `q` on the stream `s`, in the terms of `padding_spec`.
pub open spec fn flash_write_spec(s: Seq<u8>, q: u32, payload: Seq<u8>, block_size: nat) -> (Result<(), EspLoaderError>, Seq<u8>, Seq<u8>, nat, u32) {
    let f = data_frame(q, payload);
    let r = data_reply(s);
    if r is Err {
        (r, data_rest(s), f, 0, q)
    } else {
        let (r2, s2, f2, m2, q2) = padding_spec(data_rest(s), next_seq(q), (block_size - payload.len()) as nat);
        (r2, s2, f + f2, m2, q2)
    }
}

/// When every padding request succeeds, all fill bytes are sent and checksummed.
pub proof fn lemma_padding_spec_ok(s: Seq<u8>, q: u32, n: nat)
    ensures
        padding_spec(s, q, n).0 is Ok ==> padding_spec(s, q, n).2 == padding_frames(q, n)
            && padding_spec(s, q, n).3 == n && padding_spec(s, q, n).4 == padding_end_seq(q, n),
    decreases n,
{
    if n > 0 {
        let k = chunk_len(n);
        lemma_padding_spec_ok(data_rest(s), next_seq(q), (n - k) as nat);
    }
}

/// Sends one block: `payload` as it is, then fill bytes up to the block size
/// in chunks of at most `PADDING_CHUNK` bytes, each in a request of its own.
/// Every byte about to be sent, fill included, goes into the checksum.
pub fn esp_loader_flash_write(port: &mut Port, session: &mut FlashSession, payload: &[u8]) -> (r: Result<(), EspLoaderError>)
    requires
        old(port).wf(),
        old(session).wf(),
        payload@.len() <= old(session).block_size,
    ensures
        link_extends(*old(port), *final(port)),
        final(session).wf(),
        final(session).block_size == old(session).block_size,
        final(session).blocks_to_write == old(session).blocks_to_write,
        final(session).erase_size == old(session).erase_size,
        final(session).start_address == old(session).start_address,
        final(session).image_size == old(session).image_size,
        ({
            let (res, rest, frames, filled, q) = flash_write_spec(
                old(port).pending(),
                old(session).sequence,
                payload@,
                old(session).block_size as nat,
            );
            &&& r == res
            &&& final(port).pending() == rest
            &&& final(port).tx@ == old(port).tx@ + frames
            &&& final(session).checksum_input@ == old(session).checksum_input@ + payload@ + padding(filled)
            &&& final(session).sequence == q
        }),
        r is Ok ==> ({
            let pad = (old(session).block_size - payload@.len()) as nat;
            &&& final(session).checksum_input@ == old(session).checksum_input@ + payload@ + padding(pad)
            &&& final(session).checksum_input@.len() == old(session).checksum_input@.len() + old(session).block_size
            &&& final(session).sequence == padding_end_seq(next_seq(old(session).sequence), pad)
            &&& final(port).tx@ == old(port).tx@ + data_frame(old(session).sequence, payload@)
                + padding_frames(next_seq(old(session).sequence), pad)
        }),
{
    let ghost p0 = *port;
    let ghost c0 = session.checksum_input@;
    let ghost s0 = session.sequence;
    let ghost st0 = port.pending();
    let n = payload.len();
    push_all(&mut session.checksum_input, payload);
    start_timer_default(port);
    let mut data: Vec<u8> = Vec::new();
    push_all(&mut data, payload);
    let res = execute_unit(port, &Command::FlashData { sequence: session.sequence, data });
    proof {
        assert(port.tx@.take(p0.tx@.len() as int) =~= p0.tx@);
        assert(session.checksum_input@ =~= c0 + payload@ + padding(0));
    }
    match res {
        Ok(()) => {},
        Err(e) => {
            return Err(e);
        },
    }
    session.sequence = next_sequence(session.sequence);
    let ghost t1 = port.tx@;
    let ghost c1 = session.checksum_input@;
    let ghost q1 = session.sequence;
    let ghost st1 = port.pending();
    let total: usize = session.block_size as usize - n;
    let mut padding_bytes: usize = total;
    proof {
        assert(c1 + padding(0) =~= c1);
    }
    while padding_bytes != 0
        invariant
            padding_bytes <= total,
            total == old(session).block_size - n,
            n == payload@.len(),
            p0 == *old(port),
            st0 == p0.pending(),
            c1 == c0 + payload@,
            c0 == old(session).checksum_input@,
            s0 == old(session).sequence,
            q1 == next_seq(s0),
            t1 == p0.tx@ + data_frame(s0, payload@),
            data_reply(st0) is Ok,
            st1 == data_rest(st0),
            port.wf(),
            link_extends(p0, *port),
            session.wf(),
            session.block_size == old(session).block_size,
            session.blocks_to_write == old(session).blocks_to_write,
            session.erase_size == old(session).erase_size,
            session.start_address == old(session).start_address,
            session.image_size == old(session).image_size,
            session.checksum_input@ == c1 + padding((total - padding_bytes) as nat),
            ({
                let whole = padding_spec(st1, q1, total as nat);
                let cur = padding_spec(port.pending(), session.sequence, padding_bytes as nat);
                &&& whole.0 == cur.0
                &&& whole.1 == cur.1
                &&& t1 + whole.2 == port.tx@ + cur.2
                &&& whole.3 == (total - padding_bytes) + cur.3
                &&& whole.4 == cur.4
            }),
        decreases padding_bytes,
    {
        let remaining: usize = if padding_bytes < PADDING_CHUNK { padding_bytes } else { PADDING_CHUNK };
        let chunk = fill(remaining);
        push_all(&mut session.checksum_input, chunk.as_slice());
        proof {
            assert(session.checksum_input@ =~= c1 + padding((total - padding_bytes + remaining) as nat));
        }
        let ghost pk = *port;
        let ghost before = port.pending();
        start_timer_default(port);
        let res = execute_unit(port, &Command::FlashData { sequence: session.sequence, data: chunk });
        proof {
            assert(port.tx@.take(pk.tx@.len() as int) =~= pk.tx@);
            assert(port.tx@.take(p0.tx@.len() as int) =~= p0.tx@);
            let f = data_frame(session.sequence, padding(remaining as nat));
            assert(port.tx@ == pk.tx@ + f);
            if res is Ok {
                let rest = padding_spec(data_rest(before), next_seq(session.sequence), (padding_bytes - remaining) as nat);
                assert(pk.tx@ + (f + rest.2) =~= port.tx@ + rest.2);
            } else {
                assert(port.tx@ =~= port.tx@ + Seq::<u8>::empty());
            }
        }
        match res {
            Ok(()) => {},
            Err(e) => {
                return Err(e);
            },
        }
        session.sequence = next_sequence(session.sequence);
        padding_bytes = padding_bytes - remaining;
    }
    proof {
        assert(port.tx@ + Seq::<u8>::empty() =~= port.tx@);
        assert(c1 + padding(total as nat) =~= c0 + payload@ + padding(total as nat));
        lemma_padding_spec_ok(st1, q1, total as nat);
        assert(p0.tx@ + (data_frame(s0, payload@) + padding_frames(q1, total as nat)) =~= p0.tx@ + data_frame(s0, payload@) + padding_frames(q1, total as nat));
    }
    Ok(())
}

pub open spec fn end_cmd(reboot: bool) -> Command {
    Command::FlashEnd { stay_in_bootloader: !reboot }
}

/// Ends the session; the device reboots or stays in its bootloader.
pub fn esp_loader_flash_finish(port: &mut Port, reboot: bool) -> (r: Result<(), EspLoaderError>)
    requires
        old(port).wf(),
    ensures
        exchanged(timed(*old(port), DEFAULT_TIMEOUT), *final(port), end_cmd(reboot)),
        r == unit_result(reply_on(old(port).pending(), end_cmd(reboot))),
{
    start_timer_default(port);
    execute_unit(port, &Command::FlashEnd { stay_in_bootloader: !reboot })
}

/// Asks the device to switch to `baudrate`; the link itself is switched by the caller.
pub fn esp_loader_change_baudrate(port: &mut Port, baudrate: u32) -> (r: Result<(), EspLoaderError>)
    requires
        old(port).wf(),
    ensures
        exchanged(timed(*old(port), DEFAULT_TIMEOUT), *final(port), Command::ChangeBaudrate { baud: baudrate }),
        r == unit_result(reply_on(old(port).pending(), Command::ChangeBaudrate { baud: baudrate })),
{
    start_timer_default(port);
    execute_unit(port, &Command::ChangeBaudrate { baud: baudrate })
}

pub open spec fn md5_cmd(session: FlashSession) -> Command {
    Command::Md5 { address: session.start_address, size: session.image_size }
}

/// Asks the device for the checksum of the session's range and compares it
/// with the digest of everything the session transmitted.
pub fn esp_loader_flash_verify(port: &mut Port, session: &FlashSession) -> (r: Result<(), EspLoaderError>)
    requires
        old(port).wf(),
    ensures
        exchanged(
            timed(*old(port), timeout_per_mb_spec(session.start_address, MD5_TIMEOUT_PER_MB)),
            Port { debug: old(port).debug, ..*final(port) },
            md5_cmd(*session),
        ),
        ({
            let o = old(port).debug@.len() as int;
            let received = digest_result(reply_on(old(port).pending(), md5_cmd(*session)));
            if received is Ok && r is Err {
                &&& final(port).debug@.len() == o + 4
                &&& final(port).debug@.take(o) == old(port).debug@
                &&& final(port).debug@[o + 1int]@ == received->Ok_0
                &&& final(port).debug@[o + 3int]@ == hex_spec(md5_of(session.checksum_input@))
            } else {
                final(port).debug@ == old(port).debug@
            }
        }),
        r == match digest_result(reply_on(old(port).pending(), md5_cmd(*session))) {
            Err(e) => Err(e),
            Ok(received) => digest_check(received, md5_of(session.checksum_input@)),
        },
{
    loader_port_start_timer(port, timeout_per_mb(session.start_address, MD5_TIMEOUT_PER_MB));
    let received = match loader_md5_cmd(port, session.start_address, session.image_size) {
        Ok(v) => v,
        Err(e) => {
            return Err(e);
        },
    };
    let digest = md5_final(&session.checksum_input);
    let r = verify_digest(received.as_slice(), &digest);
    if r.is_err() {
        let ghost d0 = port.debug@;
        let computed = hexify(&digest);
        let expected_msg = "Error: MD5 checksum does not match. Expected:".as_bytes_vec();
        let actual_msg = "Actual:".as_bytes_vec();
        loader_port_debug_print(port, expected_msg.as_slice());
        loader_port_debug_print(port, received.as_slice());
        loader_port_debug_print(port, actual_msg.as_slice());
        loader_port_debug_print(port, computed.as_slice());
        proof {
            assert(port.debug@.take(d0.len() as int) =~= d0);
        }
    }
    r
}

} // verus!
