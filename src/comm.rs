//! The command/response layer: each command is serialised into a request,
//! framed and written; one reply frame is then decoded and checked.
use vstd::prelude::*;
use crate::error::EspLoaderError;
use crate::port::{Port, same_but_read, loader_port_serial_read, loader_port_serial_write, loader_port_remaining_time};
use crate::slip::{
    DELIMITER, ESCAPE, ESC_DELIMITER, ESC_ESCAPE, decode_spec, encode_spec, leading_delimiters,
    unescape, unescape_step, prepend, lemma_prepend_prepend, slip_encode,
};

verus! {

pub const REQUEST_DIRECTION: u8 = 0x00;
pub const RESPONSE_DIRECTION: u8 = 0x01;

pub const OP_FLASH_BEGIN: u8 = 0x02;
pub const OP_FLASH_DATA: u8 = 0x03;
pub const OP_FLASH_END: u8 = 0x04;
pub const OP_SYNC: u8 = 0x08;
pub const OP_WRITE_REG: u8 = 0x09;
pub const OP_READ_REG: u8 = 0x0A;
pub const OP_SPI_SET_PARAMS: u8 = 0x0B;
pub const OP_SPI_ATTACH: u8 = 0x0D;
pub const OP_CHANGE_BAUDRATE: u8 = 0x0F;
pub const OP_SPI_FLASH_MD5: u8 = 0x13;

/// Bytes of a reply: direction, opcode, size, value, then status and error code.
pub const RESPONSE_SIZE: usize = 10;
/// Bytes of a checksum reply: the header, 32 hex digits, status and error code.
pub const MD5_RESPONSE_SIZE: usize = 42;
/// The largest payload a request can carry: its length is a 16-bit field.
pub const MAX_PAYLOAD: usize = 0xFFFF;
/// Bytes of a flash-data payload before the data itself.
pub const FLASH_DATA_HEADER: usize = 16;
/// Seed of the flash-data checksum.
pub const CHECKSUM_SEED: u8 = 0xEF;

pub const FLASH_BLOCK_SIZE: u32 = 0x10000;
pub const FLASH_SECTOR_SIZE: u32 = 0x1000;
pub const FLASH_PAGE_SIZE: u32 = 0x100;
pub const FLASH_STATUS_MASK: u32 = 0xFFFF;

/// A request to the bootloader, with the fields its opcode needs.
pub enum Command {
    Sync,
    SpiAttach { config: u32 },
    ReadReg { address: u32 },
    WriteReg { address: u32, value: u32, mask: u32, delay_us: u32 },
    SpiSetParams { total_size: u32 },
    FlashBegin { erase_size: u32, packet_count: u32, packet_size: u32, offset: u32 },
    FlashData { sequence: u32, data: Vec<u8> },
    FlashEnd { stay_in_bootloader: bool },
    ChangeBaudrate { baud: u32 },
    Md5 { address: u32, size: u32 },
}

/// Little-endian bytes of `v`.
pub open spec fn le32(v: u32) -> Seq<u8> {
    seq![
        (v % 256) as u8,
        ((v / 256) % 256) as u8,
        ((v / 65536) % 256) as u8,
        (v / 16777216) as u8,
    ]
}

pub open spec fn le16(v: nat) -> Seq<u8> {
    seq![(v % 256) as u8, ((v / 256) % 256) as u8]
}

/// The value that four little-endian bytes at `i` hold.
pub open spec fn read_le32(d: Seq<u8>, i: int) -> u32 {
    (d[i] as int + d[i + 1] as int * 256 + d[i + 2] as int * 65536 + d[i + 3] as int
        * 16777216) as u32
}

/// XOR of the seed and every byte of `data`.
pub open spec fn xor_checksum(data: Seq<u8>) -> u8
    decreases data.len(),
{
    if data.len() == 0 {
        CHECKSUM_SEED
    } else {
        xor_checksum(data.drop_last()) ^ data.last()
    }
}

pub open spec fn sync_payload() -> Seq<u8> {
    seq![0x07u8, 0x07u8, 0x12u8, 0x20u8] + Seq::new(32, |i: int| 0x55u8)
}

/// Payload of a flash-data request: length, sequence number, two zero words, then the data.
pub open spec fn flash_data_payload(sequence: u32, d: Seq<u8>) -> Seq<u8> {
    le32(d.len() as u32) + le32(sequence) + le32(0) + le32(0) + d
}

/// The frame of a flash-data request carrying `d`.
pub open spec fn data_frame(sequence: u32, d: Seq<u8>) -> Seq<u8> {
    encode_spec(
        seq![REQUEST_DIRECTION, OP_FLASH_DATA] + le16(flash_data_payload(sequence, d).len()) + le32(
            xor_checksum(d) as u32,
        ) + flash_data_payload(sequence, d),
    )
}

pub open spec fn opcode(cmd: Command) -> u8 {
    match cmd {
        Command::Sync => OP_SYNC,
        Command::SpiAttach { .. } => OP_SPI_ATTACH,
        Command::ReadReg { .. } => OP_READ_REG,
        Command::WriteReg { .. } => OP_WRITE_REG,
        Command::SpiSetParams { .. } => OP_SPI_SET_PARAMS,
        Command::FlashBegin { .. } => OP_FLASH_BEGIN,
        Command::FlashData { .. } => OP_FLASH_DATA,
        Command::FlashEnd { .. } => OP_FLASH_END,
        Command::ChangeBaudrate { .. } => OP_CHANGE_BAUDRATE,
        Command::Md5 { .. } => OP_SPI_FLASH_MD5,
    }
}

pub open spec fn payload_spec(cmd: Command) -> Seq<u8> {
    match cmd {
        Command::Sync => sync_payload(),
        Command::SpiAttach { config } => le32(config) + le32(0),
        Command::ReadReg { address } => le32(address),
        Command::WriteReg { address, value, mask, delay_us } => le32(address) + le32(value)
            + le32(mask) + le32(delay_us),
        Command::SpiSetParams { total_size } => le32(0) + le32(total_size) + le32(
            FLASH_BLOCK_SIZE,
        ) + le32(FLASH_SECTOR_SIZE) + le32(FLASH_PAGE_SIZE) + le32(FLASH_STATUS_MASK),
        Command::FlashBegin { erase_size, packet_count, packet_size, offset } => le32(erase_size)
            + le32(packet_count) + le32(packet_size) + le32(offset),
        Command::FlashData { sequence, data } => flash_data_payload(sequence, data@),
        Command::FlashEnd { stay_in_bootloader } => le32(
            if stay_in_bootloader {
                1
            } else {
                0
            },
        ),
        Command::ChangeBaudrate { baud } => le32(baud) + le32(0),
        Command::Md5 { address, size } => le32(address) + le32(size) + le32(0) + le32(0),
    }
}

pub open spec fn checksum_field(cmd: Command) -> u32 {
    match cmd {
        Command::FlashData { data, .. } => xor_checksum(data@) as u32,
        _ => 0,
    }
}

pub open spec fn response_size(cmd: Command) -> nat {
    match cmd {
        Command::Md5 { .. } => MD5_RESPONSE_SIZE as nat,
        _ => RESPONSE_SIZE as nat,
    }
}

/// A command fits in one request.
pub open spec fn command_wf(cmd: Command) -> bool {
    match cmd {
        Command::FlashData { data, .. } => data@.len() + FLASH_DATA_HEADER <= MAX_PAYLOAD,
        _ => true,
    }
}

/// The unframed request for `cmd`.
pub open spec fn request_spec(cmd: Command) -> Seq<u8> {
    seq![REQUEST_DIRECTION, opcode(cmd)] + le16(payload_spec(cmd).len()) + le32(
        checksum_field(cmd),
    ) + payload_spec(cmd)
}

/// What a decoded reply means for a request with opcode `op`: it must be a
/// reply to that opcode, and its status byte must report success.
pub open spec fn check_response(r: Result<Seq<u8>, EspLoaderError>, op: u8) -> Result<
    Seq<u8>,
    EspLoaderError,
> {
    match r {
        Err(e) => Err(e),
        Ok(d) => if d[0] != RESPONSE_DIRECTION || d[1] != op {
            Err(EspLoaderError::InvalidResponse)
        } else if d[d.len() - 2] != 0 {
            Err(EspLoaderError::Fail)
        } else {
            Ok(d)
        },
    }
}

/// The checked reply that the stream `s` gives to `cmd`.
pub open spec fn reply_on(s: Seq<u8>, cmd: Command) -> Result<Seq<u8>, EspLoaderError> {
    check_response(decode_spec(s, response_size(cmd)).0, opcode(cmd))
}

/// What is left of the stream `s` once the reply to `cmd` was read.
pub open spec fn rest_after(s: Seq<u8>, cmd: Command) -> Seq<u8> {
    s.skip(decode_spec(s, response_size(cmd)).1 as int)
}

/// The frame that carries `cmd`.
pub open spec fn frame_of(cmd: Command) -> Seq<u8> {
    encode_spec(request_spec(cmd))
}

/// `post` is `pre` after `cmd` was framed and written and one reply frame read.
pub open spec fn exchanged(pre: Port, post: Port, cmd: Command) -> bool {
    &&& post.wf()
    &&& post.rx@ == pre.rx@
    &&& post.rx_pos == pre.rx_pos + decode_spec(pre.pending(), response_size(cmd)).1
    &&& post.pending() == rest_after(pre.pending(), cmd)
    &&& post.tx@ == pre.tx@ + frame_of(cmd)
    &&& post.timer_ms == pre.timer_ms
    &&& post.delays@ == pre.delays@
    &&& post.in_bootloader == pre.in_bootloader
    &&& post.reset_requested == pre.reset_requested
    &&& post.debug@ == pre.debug@
}

pub open spec fn vec_result(r: Result<Vec<u8>, EspLoaderError>) -> Result<Seq<u8>, EspLoaderError> {
    match r {
        Ok(v) => Ok(v@),
        Err(e) => Err(e),
    }
}

pub open spec fn unit_result(r: Result<Seq<u8>, EspLoaderError>) -> Result<(), EspLoaderError> {
    match r {
        Ok(_) => Ok(()),
        Err(e) => Err(e),
    }
}

fn push_le32(out: &mut Vec<u8>, v: u32)
    ensures
        final(out)@ == old(out)@ + le32(v),
{
    out.push((v % 256) as u8);
    out.push(((v / 256) % 256) as u8);
    out.push(((v / 65536) % 256) as u8);
    out.push((v / 16777216) as u8);
    proof {
        assert(final(out)@ =~= old(out)@ + le32(v));
    }
}

/// Appends `data` to `out`.
pub fn push_all(out: &mut Vec<u8>, data: &[u8])
    ensures
        final(out)@ == old(out)@ + data@,
{
    let mut i: usize = 0;
    while i < data.len()
        invariant
            i <= data.len(),
            out@ == old(out)@ + data@.take(i as int),
        decreases data.len() - i,
    {
        out.push(data[i]);
        proof {
            assert(data@.take(i + 1) =~= data@.take(i as int).push(data@[i as int]));
            assert(out@ =~= old(out)@ + data@.take(i + 1));
        }
        i += 1;
    }
    proof {
        assert(data@.take(i as int) =~= data@);
    }
}

/// The flash-data checksum of `data`.
pub fn compute_checksum(data: &Vec<u8>) -> (r: u8)
    ensures
        r == xor_checksum(data@),
{
    let mut chk: u8 = CHECKSUM_SEED;
    let mut i: usize = 0;
    while i < data.len()
        invariant
            i <= data.len(),
            chk == xor_checksum(data@.take(i as int)),
        decreases data.len() - i,
    {
        proof {
            assert(data@.take(i + 1).drop_last() =~= data@.take(i as int));
        }
        chk = chk ^ data[i];
        i += 1;
    }
    proof {
        assert(data@.take(i as int) =~= data@);
    }
    chk
}

fn command_opcode(cmd: &Command) -> (r: u8)
    ensures
        r == opcode(*cmd),
{
    match cmd {
        Command::Sync => OP_SYNC,
        Command::SpiAttach { .. } => OP_SPI_ATTACH,
        Command::ReadReg { .. } => OP_READ_REG,
        Command::WriteReg { .. } => OP_WRITE_REG,
        Command::SpiSetParams { .. } => OP_SPI_SET_PARAMS,
        Command::FlashBegin { .. } => OP_FLASH_BEGIN,
        Command::FlashData { .. } => OP_FLASH_DATA,
        Command::FlashEnd { .. } => OP_FLASH_END,
        Command::ChangeBaudrate { .. } => OP_CHANGE_BAUDRATE,
        Command::Md5 { .. } => OP_SPI_FLASH_MD5,
    }
}

/// The payload bytes of `cmd`.
pub fn command_payload(cmd: &Command) -> (r: Vec<u8>)
    ensures
        r@ == payload_spec(*cmd),
{
    let mut out: Vec<u8> = Vec::new();
    match cmd {
        Command::Sync => {
            out.push(0x07);
            out.push(0x07);
            out.push(0x12);
            out.push(0x20);
            let mut i: usize = 0;
            while i < 32
                invariant
                    i <= 32,
                    out@ == seq![0x07u8, 0x07u8, 0x12u8, 0x20u8] + Seq::new(
                        i as nat,
                        |j: int| 0x55u8,
                    ),
                decreases 32 - i,
            {
                out.push(0x55);
                proof {
                    assert(out@ =~= seq![0x07u8, 0x07u8, 0x12u8, 0x20u8] + Seq::new(
                        (i + 1) as nat,
                        |j: int| 0x55u8,
                    ));
                }
                i += 1;
            }
        },
        Command::SpiAttach { config } => {
            push_le32(&mut out, *config);
            push_le32(&mut out, 0);
        },
        Command::ReadReg { address } => {
            push_le32(&mut out, *address);
        },
        Command::WriteReg { address, value, mask, delay_us } => {
            push_le32(&mut out, *address);
            push_le32(&mut out, *value);
            push_le32(&mut out, *mask);
            push_le32(&mut out, *delay_us);
        },
        Command::SpiSetParams { total_size } => {
            push_le32(&mut out, 0);
            push_le32(&mut out, *total_size);
            push_le32(&mut out, FLASH_BLOCK_SIZE);
            push_le32(&mut out, FLASH_SECTOR_SIZE);
            push_le32(&mut out, FLASH_PAGE_SIZE);
            push_le32(&mut out, FLASH_STATUS_MASK);
        },
        Command::FlashBegin { erase_size, packet_count, packet_size, offset } => {
            push_le32(&mut out, *erase_size);
            push_le32(&mut out, *packet_count);
            push_le32(&mut out, *packet_size);
            push_le32(&mut out, *offset);
        },
        Command::FlashData { sequence, data } => {
            push_le32(&mut out, data.len() as u32);
            push_le32(&mut out, *sequence);
            push_le32(&mut out, 0);
            push_le32(&mut out, 0);
            push_all(&mut out, data.as_slice());
        },
        Command::FlashEnd { stay_in_bootloader } => {
            push_le32(
                &mut out,
                if *stay_in_bootloader {
                    1
                } else {
                    0
                },
            );
        },
        Command::ChangeBaudrate { baud } => {
            push_le32(&mut out, *baud);
            push_le32(&mut out, 0);
        },
        Command::Md5 { address, size } => {
            push_le32(&mut out, *address);
            push_le32(&mut out, *size);
            push_le32(&mut out, 0);
            push_le32(&mut out, 0);
        },
    }
    out
}

/// The unframed request for `cmd`.
pub fn build_request(cmd: &Command) -> (r: Vec<u8>)
    requires
        command_wf(*cmd),
    ensures
        r@ == request_spec(*cmd),
{
    let payload = command_payload(cmd);
    let chk: u32 = match cmd {
        Command::FlashData { data, .. } => compute_checksum(data) as u32,
        _ => 0,
    };
    let len = payload.len();
    let mut out: Vec<u8> = Vec::new();
    out.push(REQUEST_DIRECTION);
    out.push(command_opcode(cmd));
    out.push((len % 256) as u8);
    out.push(((len / 256) % 256) as u8);
    push_le32(&mut out, chk);
    push_all(&mut out, payload.as_slice());
    proof {
        assert(out@ =~= request_spec(*cmd));
    }
    out
}

/// Reads one byte from the device.
fn serial_read_char(port: &mut Port) -> (r: Result<u8, EspLoaderError>)
    requires
        old(port).wf(),
    ensures
        final(port).wf(),
        same_but_read(*old(port), *final(port)),
        old(port).pending().len() > 0 ==> r == Ok::<u8, EspLoaderError>(old(port).pending()[0])
            && final(port).rx_pos == old(port).rx_pos + 1,
        old(port).pending().len() == 0 ==> r == Err::<u8, EspLoaderError>(EspLoaderError::Timeout)
            && final(port).rx_pos == old(port).rx_pos,
{
    let mut ch: Vec<u8> = Vec::new();
    ch.push(0);
    let timeout = loader_port_remaining_time(port);
    match loader_port_serial_read(port, &mut ch, timeout) {
        Ok(()) => Ok(ch[0]),
        Err(e) => Err(e),
    }
}

/// Completes one unescaped byte whose first wire byte `b` was already read.
fn read_unescaped(port: &mut Port, b: u8) -> (r: Result<u8, EspLoaderError>)
    requires
        old(port).wf(),
    ensures
        final(port).wf(),
        same_but_read(*old(port), *final(port)),
        r == unescape_step(seq![b] + old(port).pending()).0,
        final(port).rx_pos + 1 == old(port).rx_pos + unescape_step(
            seq![b] + old(port).pending(),
        ).1,
{
    let ghost s = seq![b] + old(port).pending();
    assert(s[0] == b);
    if b == ESCAPE {
        match serial_read_char(port) {
            Err(e) => Err(e),
            Ok(c) => {
                assert(s[1] == c);
                if c == ESC_DELIMITER {
                    Ok(DELIMITER)
                } else if c == ESC_ESCAPE {
                    Ok(ESCAPE)
                } else {
                    Err(EspLoaderError::InvalidResponse)
                }
            },
        }
    } else if b == DELIMITER {
        Err(EspLoaderError::InvalidResponse)
    } else {
        Ok(b)
    }
}

/// Reads one frame of `size` payload bytes from the device: leading
/// delimiters are skipped, the payload is unescaped, and a closing delimiter
/// must follow.
pub fn slip_receive_packet(port: &mut Port, size: usize) -> (r: Result<Vec<u8>, EspLoaderError>)
    requires
        old(port).wf(),
    ensures
        final(port).wf(),
        same_but_read(*old(port), *final(port)),
        vec_result(r) == decode_spec(old(port).pending(), size as nat).0,
        final(port).rx_pos == old(port).rx_pos + decode_spec(old(port).pending(), size as nat).1,
        r is Ok ==> r->Ok_0@.len() == size,
{
    let ghost s = old(port).pending();
    let ghost start = old(port).rx_pos;
    let ghost mut j: nat = 0;
    let mut first: u8 = 0;
    assert(s.skip(0) =~= s);
    loop
        invariant_except_break
            port.rx_pos == start + j,
            port.pending() == s.skip(j as int),
        invariant
            s == old(port).pending(),
            start == old(port).rx_pos,
            port.wf(),
            same_but_read(*old(port), *port),
            j <= s.len(),
            leading_delimiters(s) == j + leading_delimiters(s.skip(j as int)),
        ensures
            port.wf(),
            same_but_read(*old(port), *port),
            j == leading_delimiters(s),
            j < s.len(),
            s[j as int] == first,
            port.rx_pos == start + j + 1,
            port.pending() == s.skip((j + 1) as int),
        decreases s.len() - j,
    {
        let ghost before = port.pending();
        match serial_read_char(port) {
            Err(e) => {
                proof {
                    assert(s.skip(j as int).len() == 0);
                    assert(leading_delimiters(s) == j);
                    assert(j == s.len());
                    if size > 0 {
                        assert(unescape(s.skip(j as int), size as nat) == (Err::<Seq<u8>, EspLoaderError>(EspLoaderError::Timeout), 0nat));
                    } else {
                        assert(unescape(s.skip(j as int), size as nat) == (Ok::<Seq<u8>, EspLoaderError>(Seq::empty()), 0nat));
                    }
                }
                return Err(e);
            },
            Ok(ch) => {
                assert(ch == s[j as int]);
                assert(port.rx_pos == start + j + 1);
                assert(port.pending() =~= s.skip((j + 1) as int));
                if ch != DELIMITER {
                    first = ch;
                    break;
                }
                proof {
                    assert(s.skip(j as int).skip(1) =~= s.skip((j + 1) as int));
                    j = j + 1;
                }
            },
        }
    }
    let ghost k = j;
    let ghost t = s.skip(k as int);
    assert(t[0] == first);
    assert(seq![first] + port.pending() =~= t);
    if size == 0 {
        return Err(EspLoaderError::InvalidResponse);
    }
    let mut out: Vec<u8> = Vec::new();
    let b0 = read_unescaped(port, first);
    let ghost mut c: nat = unescape_step(t).1;
    match b0 {
        Err(e) => {
            return Err(e);
        },
        Ok(b) => {
            out.push(b);
        },
    }
    proof {
        assert(unescape(t, size as nat) == prepend(seq![b0->Ok_0], c, unescape(t.skip(c as int), (size - 1) as nat)));
        assert(out@ =~= seq![b0->Ok_0]);
        assert(c <= t.len());
        assert(port.pending() =~= t.skip(c as int));
    }
    let mut i: usize = 1;
    while i < size
        invariant
            1 <= i <= size,
            s == old(port).pending(),
            start == old(port).rx_pos,
            port.wf(),
            same_but_read(*old(port), *port),
            k == leading_delimiters(s),
            k < s.len(),
            t == s.skip(k as int),
            c <= t.len(),
            port.rx_pos == start + k + c,
            port.pending() == t.skip(c as int),
            out@.len() == i,
            unescape(t, size as nat) == prepend(out@, c, unescape(t.skip(c as int), (size - i) as nat)),
        decreases size - i,
    {
        let ghost u = t.skip(c as int);
        match serial_read_char(port) {
            Err(e) => {
                proof {
                    assert(u.len() == 0);
                    assert(unescape(u, (size - i) as nat) == (Err::<Seq<u8>, EspLoaderError>(EspLoaderError::Timeout), 0nat));
                }
                return Err(e);
            },
            Ok(ch) => {
                assert(seq![ch] + port.pending() =~= u);
                let ghost st = unescape_step(u);
                let ghost m = (size - i) as nat;
                match read_unescaped(port, ch) {
                    Err(e) => {
                        proof {
                            assert(unescape(u, m) == (Err::<Seq<u8>, EspLoaderError>(e), st.1));
                        }
                        return Err(e);
                    },
                    Ok(b) => {
                        proof {
                            assert(unescape(u, m) == prepend(seq![b], st.1, unescape(u.skip(st.1 as int), (m - 1) as nat)));
                            lemma_prepend_prepend(out@, c, seq![b], st.1, unescape(u.skip(st.1 as int), (m - 1) as nat));
                            assert(u.skip(st.1 as int) =~= t.skip((c + st.1) as int));
                        }
                        let ghost old_out = out@;
                        out.push(b);
                        proof {
                            assert(out@ =~= old_out + seq![b]);
                            assert((m - 1) as nat == (size - (i + 1)) as nat);
                            c = c + st.1;
                            assert(port.pending() =~= t.skip(c as int));
                        }
                    },
                }
            },
        }
        i += 1;
    }
    proof {
        assert(out@ + Seq::<u8>::empty() =~= out@);
    }
    match serial_read_char(port) {
        Err(e) => Err(e),
        Ok(ch) => {
            assert(s[(k + c) as int] == ch);
            if ch == DELIMITER {
                Ok(out)
            } else {
                Err(EspLoaderError::InvalidResponse)
            }
        },
    }
}

/// The register value a reply carries.
pub open spec fn value_result(r: Result<Seq<u8>, EspLoaderError>) -> Result<u32, EspLoaderError> {
    match r {
        Ok(d) => Ok(read_le32(d, 4)),
        Err(e) => Err(e),
    }
}

/// The hex digits a checksum reply carries.
pub open spec fn digest_result(r: Result<Seq<u8>, EspLoaderError>) -> Result<Seq<u8>, EspLoaderError> {
    match r {
        Ok(d) => Ok(d.subrange(8, 40)),
        Err(e) => Err(e),
    }
}

/// Frames and writes `cmd`, then reads and checks one reply frame. Never retries.
pub fn execute(port: &mut Port, cmd: &Command) -> (r: Result<Vec<u8>, EspLoaderError>)
    requires
        old(port).wf(),
        command_wf(*cmd),
    ensures
        exchanged(*old(port), *final(port), *cmd),
        vec_result(r) == reply_on(old(port).pending(), *cmd),
        r is Ok ==> r->Ok_0@.len() == response_size(*cmd),
{
    let req = build_request(cmd);
    let frame = slip_encode(req.as_slice());
    let op = command_opcode(cmd);
    let timeout = loader_port_remaining_time(port);
    let ghost p0 = *port;
    match loader_port_serial_write(port, frame.as_slice(), timeout) {
        Err(e) => {
            return Err(e);
        },
        Ok(()) => {},
    }
    assert(port.pending() == p0.pending());
    let size: usize = match cmd {
        Command::Md5 { .. } => MD5_RESPONSE_SIZE,
        _ => RESPONSE_SIZE,
    };
    let ghost p1 = *port;
    let resp = slip_receive_packet(port, size);
    proof {
        let c = decode_spec(p1.pending(), size as nat).1;
        assert(port.pending() =~= p1.pending().skip(c as int));
    }
    match resp {
        Err(e) => Err(e),
        Ok(d) => {
            if d[0] != RESPONSE_DIRECTION || d[1] != op {
                Err(EspLoaderError::InvalidResponse)
            } else if d[size - 2] != 0 {
                Err(EspLoaderError::Fail)
            } else {
                Ok(d)
            }
        },
    }
}

/// Sends `cmd` and keeps only whether it succeeded.
pub fn execute_unit(port: &mut Port, cmd: &Command) -> (r: Result<(), EspLoaderError>)
    requires
        old(port).wf(),
        command_wf(*cmd),
    ensures
        exchanged(*old(port), *final(port), *cmd),
        r == unit_result(reply_on(old(port).pending(), *cmd)),
{
    match execute(port, cmd) {
        Ok(_) => Ok(()),
        Err(e) => Err(e),
    }
}

/// Reads the 32-bit register at `address`.
pub fn loader_read_reg_cmd(port: &mut Port, address: u32) -> (r: Result<u32, EspLoaderError>)
    requires
        old(port).wf(),
    ensures
        exchanged(*old(port), *final(port), Command::ReadReg { address }),
        r == value_result(reply_on(old(port).pending(), Command::ReadReg { address })),
{
    match execute(port, &Command::ReadReg { address }) {
        Ok(d) => Ok(d[4] as u32 + d[5] as u32 * 256 + d[6] as u32 * 65536 + d[7] as u32 * 16777216),
        Err(e) => Err(e),
    }
}

/// Asks the device for the checksum of `size` bytes of flash at `address`;
/// gives the 32 hex digits it replies with.
pub fn loader_md5_cmd(port: &mut Port, address: u32, size: u32) -> (r: Result<Vec<u8>, EspLoaderError>)
    requires
        old(port).wf(),
    ensures
        exchanged(*old(port), *final(port), Command::Md5 { address, size }),
        vec_result(r) == digest_result(reply_on(old(port).pending(), Command::Md5 { address, size })),
{
    match execute(port, &Command::Md5 { address, size }) {
        Ok(d) => {
            let mut out: Vec<u8> = Vec::new();
            let mut i: usize = 8;
            while i < 40
                invariant
                    8 <= i <= 40,
                    d@.len() == MD5_RESPONSE_SIZE,
                    out@ == d@.subrange(8, i as int),
                decreases 40 - i,
            {
                out.push(d[i]);
                proof {
                    assert(out@ =~= d@.subrange(8, i + 1));
                }
                i += 1;
            }
            Ok(out)
        },
        Err(e) => Err(e),
    }
}

} // verus!
