//! Register access, chip identification, the connection handshake and the
//! flash size probe, all on top of the command layer.
use vstd::prelude::*;
use crate::error::EspLoaderError;
use crate::port::{
    Port, loader_port_start_timer, loader_port_enter_bootloader, loader_port_delay_ms,
    loader_port_reset_target,
};
use crate::comm::{
    Command, execute_unit, loader_read_reg_cmd, exchanged, reply_on, rest_after, frame_of,
    value_result, unit_result, RESPONSE_SIZE,
};
use crate::slip::{decode_spec, leading_delimiters, unescape};

verus! {

pub const UART_DATE_REG_ADDR: u32 = 0x1111;
pub const UART_DATE_REG2_ADDR: u32 = 0x2222;
/// Expected content of the first identity register.
pub const DATE_REG_1: u32 = 0x5555;
/// Expected content of the second identity register; zero means it is not checked.
pub const DATE_REG_2: u32 = 0x6666;

pub const DEFAULT_TIMEOUT: u32 = 3000;
/// The least timeout of a flash operation.
pub const DEFAULT_FLASH_TIMEOUT: u32 = 3000;
/// Timeout per megabyte for erasing a region.
pub const ERASE_REGION_TIMEOUT_PER_MB: u32 = 3000;
/// Timeout per megabyte for the device's checksum computation.
pub const MD5_TIMEOUT_PER_MB: u32 = 800;
pub const MEGABYTE: u32 = 0x100000;
/// Wait between sync attempts.
pub const SYNC_RETRY_DELAY_MS: u32 = 100;
pub const SPI_PIN_CONFIG_DEFAULT: u32 = 0;

/// `max(DEFAULT_FLASH_TIMEOUT, rate * whole megabytes of size)`, where a
/// product beyond `u32::MAX` saturates.
pub open spec fn timeout_per_mb_spec(size_bytes: u32, rate: u32) -> u32 {
    let scaled = rate as int * (size_bytes / MEGABYTE) as int;
    let capped = if scaled > u32::MAX { u32::MAX as int } else { scaled };
    if capped < DEFAULT_FLASH_TIMEOUT { DEFAULT_FLASH_TIMEOUT } else { capped as u32 }
}

/// Timeout for an operation over `size_bytes` at `rate` ms per megabyte.
pub fn timeout_per_mb(size_bytes: u32, rate: u32) -> (r: u32)
    ensures
        r == timeout_per_mb_spec(size_bytes, rate),
{
    let q: u32 = size_bytes / MEGABYTE;
    assert(q <= 4095);
    assert(rate as int * q as int <= 0xFFFF_FFFF * 4095) by (nonlinear_arith)
        requires
            rate <= 0xFFFF_FFFF,
            q <= 4095,
    ;
    let scaled: u64 = rate as u64 * q as u64;
    let capped: u32 = if scaled > u32::MAX as u64 { u32::MAX } else { scaled as u32 };
    if capped < DEFAULT_FLASH_TIMEOUT { DEFAULT_FLASH_TIMEOUT } else { capped }
}

/// A timeout is never below the default, and grows with the size.
pub proof fn lemma_timeout_per_mb_monotone(a: u32, b: u32, rate: u32)
    requires
        a <= b,
    ensures
        timeout_per_mb_spec(a, rate) <= timeout_per_mb_spec(b, rate),
        timeout_per_mb_spec(a, rate) >= DEFAULT_FLASH_TIMEOUT,
{
    assert(a / MEGABYTE <= b / MEGABYTE) by (nonlinear_arith)
        requires a <= b;
    assert(rate as int * (a / MEGABYTE) as int <= rate as int * (b / MEGABYTE) as int) by (nonlinear_arith)
        requires a / MEGABYTE <= b / MEGABYTE;
}

/// `p` with its timer re-armed to `ms`.
pub open spec fn timed(p: Port, ms: u32) -> Port {
    Port { timer_ms: ms, ..p }
}

pub fn start_timer_default(port: &mut Port)
    ensures
        *final(port) == timed(*old(port), DEFAULT_TIMEOUT),
{
    loader_port_start_timer(port, DEFAULT_TIMEOUT);
}

/// Reads a register, in a fresh default timeout window.
pub fn esp_loader_read_register(port: &mut Port, address: u32) -> (r: Result<u32, EspLoaderError>)
    requires
        old(port).wf(),
    ensures
        exchanged(timed(*old(port), DEFAULT_TIMEOUT), *final(port), Command::ReadReg { address }),
        r == value_result(reply_on(old(port).pending(), Command::ReadReg { address })),
{
    start_timer_default(port);
    loader_read_reg_cmd(port, address)
}

pub open spec fn write_reg(address: u32, value: u32) -> Command {
    Command::WriteReg { address, value, mask: 0xFFFF_FFFF, delay_us: 0 }
}

/// Writes all bits of a register, in a fresh default timeout window.
pub fn esp_loader_write_register(port: &mut Port, address: u32, value: u32) -> (r: Result<(), EspLoaderError>)
    requires
        old(port).wf(),
    ensures
        exchanged(timed(*old(port), DEFAULT_TIMEOUT), *final(port), write_reg(address, value)),
        r == unit_result(reply_on(old(port).pending(), write_reg(address, value))),
{
    start_timer_default(port);
    execute_unit(port, &Command::WriteReg { address, value, mask: 0xFFFF_FFFF, delay_us: 0 })
}

pub open spec fn read_id1() -> Command {
    Command::ReadReg { address: UART_DATE_REG_ADDR }
}

pub open spec fn read_id2() -> Command {
    Command::ReadReg { address: UART_DATE_REG2_ADDR }
}

/// Whether two identity register values name a known chip.
pub open spec fn chip_result(v1: u32, v2: u32) -> Result<(), EspLoaderError> {
    if v1 == DATE_REG_1 && (DATE_REG_2 == 0 || v2 == DATE_REG_2) {
        Ok(())
    } else {
        Err(EspLoaderError::InvalidTarget)
    }
}

/// The outcome of identifying the chip on the stream `s`.
pub open spec fn detect_chip_spec(s: Seq<u8>) -> Result<(), EspLoaderError> {
    match value_result(reply_on(s, read_id1())) {
        Err(e) => Err(e),
        Ok(v1) => match value_result(reply_on(rest_after(s, read_id1()), read_id2())) {
            Err(e) => Err(e),
            Ok(v2) => chip_result(v1, v2),
        },
    }
}

/// What identification leaves of the stream `s`.
pub open spec fn detect_chip_rest(s: Seq<u8>) -> Seq<u8> {
    if reply_on(s, read_id1()) is Err {
        rest_after(s, read_id1())
    } else {
        rest_after(rest_after(s, read_id1()), read_id2())
    }
}

/// What identification writes.
pub open spec fn detect_chip_frames(s: Seq<u8>) -> Seq<u8> {
    if reply_on(s, read_id1()) is Err {
        frame_of(read_id1())
    } else {
        frame_of(read_id1()) + frame_of(read_id2())
    }
}

/// `b` differs from `a` only in what was read, written, and the timer.
pub open spec fn link_progress(a: Port, b: Port) -> bool {
    &&& b.wf()
    &&& b.rx@ == a.rx@
    &&& b.delays@ == a.delays@
    &&& b.in_bootloader == a.in_bootloader
    &&& b.reset_requested == a.reset_requested
    &&& b.debug@ == a.debug@
}

/// Reads the two identity registers and compares them with the expected signature.
pub fn detect_chip(port: &mut Port) -> (r: Result<(), EspLoaderError>)
    requires
        old(port).wf(),
    ensures
        link_progress(*old(port), *final(port)),
        r == detect_chip_spec(old(port).pending()),
        final(port).pending() == detect_chip_rest(old(port).pending()),
        final(port).tx@ == old(port).tx@ + detect_chip_frames(old(port).pending()),
{
    let reg_1 = match esp_loader_read_register(port, UART_DATE_REG_ADDR) {
        Ok(v) => v,
        Err(e) => {
            return Err(e);
        },
    };
    let reg_2 = match esp_loader_read_register(port, UART_DATE_REG2_ADDR) {
        Ok(v) => v,
        Err(e) => {
            proof {
                assert(port.tx@ =~= old(port).tx@ + detect_chip_frames(old(port).pending()));
            }
            return Err(e);
        },
    };
    proof {
        assert(port.tx@ =~= old(port).tx@ + detect_chip_frames(old(port).pending()));
    }
    if DATE_REG_1 == reg_1 && (DATE_REG_2 == 0 || DATE_REG_2 == reg_2) {
        Ok(())
    } else {
        Err(EspLoaderError::InvalidTarget)
    }
}

pub open spec fn attach_cmd() -> Command {
    Command::SpiAttach { config: SPI_PIN_CONFIG_DEFAULT }
}

/// Attaches the SPI flash with the default pin configuration.
pub fn attach(port: &mut Port) -> (r: Result<(), EspLoaderError>)
    requires
        old(port).wf(),
    ensures
        exchanged(timed(*old(port), DEFAULT_TIMEOUT), *final(port), attach_cmd()),
        r == unit_result(reply_on(old(port).pending(), attach_cmd())),
{
    start_timer_default(port);
    execute_unit(port, &Command::SpiAttach { config: SPI_PIN_CONFIG_DEFAULT })
}

/// How to connect: the wait for each sync reply, and how many attempts to make.
pub struct ConnectArgs {
    pub sync_timeout: u32,
    pub trials: i32,
}

/// `x` repeated `n` times.
pub open spec fn repeat(x: Seq<u8>, n: nat) -> Seq<u8>
    decreases n,
{
    if n == 0 {
        Seq::empty()
    } else {
        repeat(x, (n - 1) as nat) + x
    }
}

/// The sync attempts on the stream `s` with `trials` attempts allowed: the
/// outcome, what is left of the stream, and how many attempts were made.
/// Only a timeout leads to another attempt.
pub open spec fn sync_loop(s: Seq<u8>, trials: int) -> (Result<(), EspLoaderError>, Seq<u8>, nat)
    decreases trials,
{
    let r = unit_result(reply_on(s, Command::Sync));
    let s1 = rest_after(s, Command::Sync);
    if trials <= 1 || r != Err::<(), EspLoaderError>(EspLoaderError::Timeout) {
        (r, s1, 1)
    } else {
        let (r2, s2, n) = sync_loop(s1, trials - 1);
        (r2, s2, n + 1)
    }
}

/// The outcome of connecting once sync left the stream `s`.
pub open spec fn after_sync(s: Seq<u8>) -> Result<(), EspLoaderError> {
    match detect_chip_spec(s) {
        Err(e) => Err(e),
        Ok(()) => unit_result(reply_on(detect_chip_rest(s), attach_cmd())),
    }
}

/// What identification and attach leave of the stream `s` once sync succeeded.
pub open spec fn after_sync_rest(s: Seq<u8>) -> Seq<u8> {
    if detect_chip_spec(s) is Ok {
        rest_after(detect_chip_rest(s), attach_cmd())
    } else {
        detect_chip_rest(s)
    }
}

/// The frames identification and attach write once sync succeeded: the
/// attach command only for a recognised chip.
pub open spec fn after_sync_frames(s: Seq<u8>) -> Seq<u8> {
    if detect_chip_spec(s) is Ok {
        detect_chip_frames(s) + frame_of(attach_cmd())
    } else {
        detect_chip_frames(s)
    }
}

/// The delays of `n` retries after sync attempts on a link that held `tx`:
/// the i-th begins once `i + 1` sync frames were written.
pub open spec fn retry_delays(tx: Seq<u8>, n: nat) -> Seq<(usize, u32)> {
    Seq::new(n, |i: int| ((tx + repeat(frame_of(Command::Sync), (i + 1) as nat)).len() as usize, SYNC_RETRY_DELAY_MS))
}

/// Forces the device into its bootloader, syncs with it in up to `trials`
/// attempts (waiting between attempts that timed out), identifies the chip
/// and attaches its SPI flash.
pub fn esp_loader_connect(port: &mut Port, connect_args: &ConnectArgs) -> (r: Result<(), EspLoaderError>)
    requires
        old(port).wf(),
        connect_args.trials >= 1,
    ensures
        final(port).wf(),
        final(port).rx@ == old(port).rx@,
        final(port).in_bootloader,
        final(port).reset_requested == old(port).reset_requested,
        final(port).debug@ == old(port).debug@,
        ({
            let (sr, s1, n) = sync_loop(old(port).pending(), connect_args.trials as int);
            &&& final(port).delays@ == old(port).delays@ + retry_delays(old(port).tx@, (n - 1) as nat)
            &&& sr is Err ==> r == sr && final(port).pending() == s1
                && final(port).tx@ == old(port).tx@ + repeat(frame_of(Command::Sync), n)
            &&& sr is Ok ==> r == after_sync(s1) && final(port).pending() == after_sync_rest(s1)
                && final(port).tx@ == old(port).tx@ + repeat(frame_of(Command::Sync), n) + after_sync_frames(s1)
        }),
{
    let mut trials: i32 = connect_args.trials;
    let ghost total = connect_args.trials as int;
    loader_port_enter_bootloader(port);
    let ghost p0 = *port;
    let ghost s0 = p0.pending();
    let ghost mut n: nat = 0;
    assert(p0.delays@ + retry_delays(p0.tx@, 0) =~= p0.delays@);
    assert(p0.tx@ + repeat(frame_of(Command::Sync), 0) =~= p0.tx@);
    loop
        invariant_except_break
            1 <= trials <= total,
            n == total - trials,
            port.tx@ == p0.tx@ + repeat(frame_of(Command::Sync), n),
            ({
                let (sr, s1, m) = sync_loop(s0, total);
                let (sr2, s2, m2) = sync_loop(port.pending(), trials as int);
                sr2 == sr && s2 == s1 && m == m2 + n
            }),
        invariant
            total == connect_args.trials,
            p0.wf(),
            s0 == p0.pending(),
            p0.rx@ == old(port).rx@,
            p0.tx@ == old(port).tx@,
            p0.delays@ == old(port).delays@,
            p0.in_bootloader,
            p0.reset_requested == old(port).reset_requested,
            s0 == old(port).pending(),
            port.wf(),
            port.rx@ == p0.rx@,
            port.in_bootloader,
            port.reset_requested == p0.reset_requested,
            port.debug@ == old(port).debug@,
            port.delays@ == p0.delays@ + retry_delays(p0.tx@, n),
        ensures
            ({
                let (sr, s1, m) = sync_loop(s0, total);
                sr is Ok && s1 == port.pending() && m == n + 1
            }),
            port.tx@ == p0.tx@ + repeat(frame_of(Command::Sync), n + 1),
        decreases trials,
    {
        let ghost before = port.pending();
        let ghost tb = trials as int;
        trials -= 1;
        loader_port_start_timer(port, connect_args.sync_timeout);
        let res = execute_unit(port, &Command::Sync);
        proof {
            assert(port.tx@ =~= p0.tx@ + repeat(frame_of(Command::Sync), n + 1));
            if tb > 1 && res == Err::<(), EspLoaderError>(EspLoaderError::Timeout) {
                let (r2, s2, k) = sync_loop(rest_after(before, Command::Sync), tb - 1);
                assert(sync_loop(before, tb) == (r2, s2, k + 1));
            } else {
                assert(sync_loop(before, tb) == (res, rest_after(before, Command::Sync), 1nat));
            }
        }
        match res {
            Err(EspLoaderError::Timeout) => {
                if trials == 0 {
                    return Err(EspLoaderError::Timeout);
                }
            },
            Err(e) => {
                return Err(e);
            },
            Ok(()) => {
                break;
            },
        }
        loader_port_delay_ms(port, SYNC_RETRY_DELAY_MS);
        proof {
            assert(port.delays@ =~= p0.delays@ + retry_delays(p0.tx@, n + 1));
            n = n + 1;
        }
    }
    let ghost p1 = *port;
    match detect_chip(port) {
        Ok(()) => {},
        Err(e) => {
            return Err(e);
        },
    }
    let r = attach(port);
    proof {
        assert(port.tx@ =~= p1.tx@ + after_sync_frames(p1.pending()));
    }
    r
}

/// On a link that stays silent, every sync attempt times out and nothing is read.
pub proof fn lemma_sync_silent_link(s: Seq<u8>, trials: int)
    requires
        s.len() == 0,
        trials >= 1,
    ensures
        sync_loop(s, trials) == (Err::<(), EspLoaderError>(EspLoaderError::Timeout), s, trials as nat),
    decreases trials,
{
    assert(leading_delimiters(s) == 0);
    assert(s.skip(0) =~= s);
    assert(unescape(s, RESPONSE_SIZE as nat) == (Err::<Seq<u8>, EspLoaderError>(EspLoaderError::Timeout), 0nat));
    assert(decode_spec(s, RESPONSE_SIZE as nat).1 == 0);
    assert(rest_after(s, Command::Sync) =~= s);
    if trials > 1 {
        lemma_sync_silent_link(s, trials - 1);
    }
}

/// Resets the device.
pub fn esp_loader_reset_target(port: &mut Port)
    ensures
        *final(port) == (Port { reset_requested: true, ..*old(port) }),
{
    loader_port_reset_target(port);
}

pub const SPI_REG_BASE: u32 = 0x60000200;
pub const SPI_CMD_REG: u32 = SPI_REG_BASE + 0x00;
pub const SPI_USR_REG: u32 = SPI_REG_BASE + 0x1c;
pub const SPI_USR1_REG: u32 = SPI_REG_BASE + 0x20;
pub const SPI_USR2_REG: u32 = SPI_REG_BASE + 0x24;
pub const SPI_W0_REG: u32 = SPI_REG_BASE + 0x40;
pub const SPI_MOSI_DLEN_REG: u32 = 0;
pub const SPI_MISO_DLEN_REG: u32 = 0;

pub const SPI_USR_CMD: u32 = 0x8000_0000;
pub const SPI_USR_MISO: u32 = 0x1000_0000;
pub const SPI_USR_MOSI: u32 = 0x0800_0000;
pub const SPI_CMD_USR: u32 = 0x0004_0000;
/// Command length field of the second user register: an 8-bit command.
pub const SPI_USR2_CMD_LEN: u32 = 0x7000_0000;
/// How many times the busy bit is read before giving up.
pub const SPI_BUSY_POLLS: u32 = 10;
/// Largest transfer a single SPI command supports.
pub const SPI_MAX_TX_WORDS: usize = 16;
pub const SPI_MAX_RX_BITS: u32 = 32;

pub const SPI_FLASH_READ_ID: u32 = 0x9F;

/// `a` ends with `b`.
pub open spec fn ends_with(a: Seq<u8>, b: Seq<u8>) -> bool {
    a.len() >= b.len() && a.skip(a.len() - b.len()) == b
}

/// `b` continues `a`: same link, more read and more written.
pub open spec fn link_extends(a: Port, b: Port) -> bool {
    &&& link_progress(a, b)
    &&& b.rx_pos >= a.rx_pos
    &&& b.tx@.len() >= a.tx@.len()
    &&& b.tx@.take(a.tx@.len() as int) == a.tx@
}

proof fn lemma_exchanged_extends(a: Port, b: Port, cmd: Command)
    requires
        a.wf(),
        exchanged(a, b, cmd),
    ensures
        link_extends(a, b),
{
    assert(b.tx@.take(a.tx@.len() as int) =~= a.tx@);
}

proof fn lemma_extends_trans(a: Port, b: Port, c: Port)
    requires
        link_extends(a, b),
        link_extends(b, c),
    ensures
        link_extends(a, c),
{
    assert(c.tx@.take(a.tx@.len() as int) =~= b.tx@.take(a.tx@.len() as int));
}

/// Runs the register writes `ws` in order on the stream `s`, stopping at the
/// first failure: the outcome, and what is left of the stream.
pub open spec fn run_writes(s: Seq<u8>, ws: Seq<(u32, u32)>) -> (Result<(), EspLoaderError>, Seq<u8>)
    decreases ws.len(),
{
    if ws.len() == 0 {
        (Ok(()), s)
    } else {
        let c = write_reg(ws[0].0, ws[0].1);
        let r = unit_result(reply_on(s, c));
        if r is Err {
            (r, rest_after(s, c))
        } else {
            run_writes(rest_after(s, c), ws.skip(1))
        }
    }
}

/// The frames written by running the register writes `ws` on the stream `s`:
/// one per write, up to and including the first that fails.
pub open spec fn run_writes_frames(s: Seq<u8>, ws: Seq<(u32, u32)>) -> Seq<u8>
    decreases ws.len(),
{
    if ws.len() == 0 {
        Seq::empty()
    } else {
        let c = write_reg(ws[0].0, ws[0].1);
        if reply_on(s, c) is Err {
            frame_of(c)
        } else {
            frame_of(c) + run_writes_frames(rest_after(s, c), ws.skip(1))
        }
    }
}

/// Writes each `(address, value)` of `writes` in order, each in a fresh
/// default timeout window; stops at the first failure.
pub fn write_all(port: &mut Port, writes: &Vec<(u32, u32)>) -> (r: Result<(), EspLoaderError>)
    requires
        old(port).wf(),
    ensures
        link_extends(*old(port), *final(port)),
        (r, final(port).pending()) == run_writes(old(port).pending(), writes@),
        final(port).tx@ == old(port).tx@ + run_writes_frames(old(port).pending(), writes@),
{
    let ghost p0 = *port;
    proof {
        assert(p0.tx@.take(p0.tx@.len() as int) =~= p0.tx@);
        assert(writes@.skip(0) =~= writes@);
    }
    let mut k: usize = 0;
    while k < writes.len()
        invariant
            k <= writes@.len(),
            p0 == *old(port),
            port.wf(),
            link_extends(p0, *port),
            run_writes(p0.pending(), writes@) == run_writes(port.pending(), writes@.skip(k as int)),
            p0.tx@ + run_writes_frames(p0.pending(), writes@) == port.tx@ + run_writes_frames(
                port.pending(),
                writes@.skip(k as int),
            ),
        decreases writes@.len() - k,
    {
        let (address, value) = writes[k];
        let ghost pk = *port;
        let res = esp_loader_write_register(port, address, value);
        proof {
            let c = write_reg(address, value);
            let rest = run_writes_frames(port.pending(), writes@.skip(k + 1));
            if res is Err {
                assert(p0.tx@ + run_writes_frames(p0.pending(), writes@) =~= port.tx@ + Seq::<u8>::empty());
            } else {
                assert(writes@.skip(k as int).skip(1) =~= writes@.skip(k + 1));
                assert(pk.tx@ + (frame_of(c) + rest) =~= port.tx@ + rest);
            }
            lemma_exchanged_extends(timed(pk, DEFAULT_TIMEOUT), *port, write_reg(address, value));
            lemma_extends_trans(p0, pk, *port);
            assert(writes@.skip(k as int)[0] == (address, value));
            assert(writes@.skip(k as int).skip(1) =~= writes@.skip(k + 1));
        }
        match res {
            Ok(()) => {},
            Err(e) => {
                return Err(e);
            },
        }
        k += 1;
    }
    proof {
        assert(port.tx@ + Seq::<u8>::empty() =~= port.tx@);
    }
    Ok(())
}

/// The writes that program the MOSI and MISO bit lengths, each only where it is not zero.
pub open spec fn data_length_writes(mosi_bits: u32, miso_bits: u32) -> Seq<(u32, u32)> {
    (if mosi_bits > 0 {
        seq![(SPI_MOSI_DLEN_REG, (mosi_bits - 1) as u32)]
    } else {
        Seq::empty()
    }) + (if miso_bits > 0 {
        seq![(SPI_MISO_DLEN_REG, (miso_bits - 1) as u32)]
    } else {
        Seq::empty()
    })
}

/// Programs the MOSI and MISO bit lengths, each only where it is not zero.
pub fn spi_set_data_lengths(port: &mut Port, mosi_bits: u32, miso_bits: u32) -> (r: Result<(), EspLoaderError>)
    requires
        old(port).wf(),
    ensures
        link_extends(*old(port), *final(port)),
        (r, final(port).pending()) == run_writes(old(port).pending(), data_length_writes(mosi_bits, miso_bits)),
        final(port).tx@ == old(port).tx@ + run_writes_frames(old(port).pending(), data_length_writes(mosi_bits, miso_bits)),
{
    let mut writes: Vec<(u32, u32)> = Vec::new();
    if mosi_bits > 0 {
        writes.push((SPI_MOSI_DLEN_REG, mosi_bits - 1));
    }
    if miso_bits > 0 {
        writes.push((SPI_MISO_DLEN_REG, miso_bits - 1));
    }
    assert(writes@ =~= data_length_writes(mosi_bits, miso_bits));
    write_all(port, &writes)
}

/// The first user register's value that holds both bit lengths, for the
/// targets that keep them there.
pub open spec fn usr1_value(mosi_bits: u32, miso_bits: u32) -> u32 {
    let mosi_mask: u32 = if mosi_bits == 0 { 0 } else { (mosi_bits - 1) as u32 };
    let miso_mask: u32 = if miso_bits == 0 { 0 } else { (miso_bits - 1) as u32 };
    ((miso_mask << 8u32) | (mosi_mask << 17u32)) as u32
}

/// Programs both bit lengths with one write to the first user register.
pub fn spi_set_data_lengths_2(port: &mut Port, mosi_bits: u32, miso_bits: u32) -> (r: Result<(), EspLoaderError>)
    requires
        old(port).wf(),
    ensures
        exchanged(timed(*old(port), DEFAULT_TIMEOUT), *final(port), write_reg(SPI_USR1_REG, usr1_value(mosi_bits, miso_bits))),
        r == unit_result(reply_on(old(port).pending(), write_reg(SPI_USR1_REG, usr1_value(mosi_bits, miso_bits)))),
{
    let mosi_bitlen_shift: u32 = 17;
    let miso_bitlen_shift: u32 = 8;
    let mosi_mask: u32 = if mosi_bits == 0 { 0 } else { mosi_bits - 1 };
    let miso_mask: u32 = if miso_bits == 0 { 0 } else { miso_bits - 1 };
    let usr_reg: u32 = (miso_mask << miso_bitlen_shift) | (mosi_mask << mosi_bitlen_shift);
    esp_loader_write_register(port, SPI_USR1_REG, usr_reg)
}

/// The first user register's value for a transfer that receives `rx_size`
/// bits and sends `tx_size` bits.
pub open spec fn usr_value(rx_size: u32, tx_size: u32) -> u32 {
    let a = SPI_USR_CMD;
    let b = if rx_size > 0 { a | SPI_USR_MISO } else { a };
    if tx_size > 0 { b | SPI_USR_MOSI } else { b }
}

/// The writes that set up and start a transfer of command `cmd` sending
/// `data` and receiving `rx_size` bits.
pub open spec fn command_writes(cmd: u32, data: Seq<u32>, rx_size: u32) -> Seq<(u32, u32)> {
    seq![
        (SPI_USR_REG, usr_value(rx_size, (8 * data.len()) as u32)),
        (SPI_USR2_REG, SPI_USR2_CMD_LEN | cmd),
    ] + (if data.len() == 0 {
        seq![(SPI_W0_REG, 0u32)]
    } else {
        Seq::new(data.len(), |i: int| ((SPI_W0_REG + 4 * i) as u32, data[i]))
    }) + seq![(SPI_CMD_REG, SPI_CMD_USR)]
}

pub open spec fn read_cmd_reg() -> Command {
    Command::ReadReg { address: SPI_CMD_REG }
}

/// Polls the busy bit on the stream `s` at most `polls` times: idle, a
/// timeout when it stays busy, or the failure of a read.
pub open spec fn poll_idle(s: Seq<u8>, polls: nat) -> (Result<(), EspLoaderError>, Seq<u8>)
    decreases polls,
{
    let r = value_result(reply_on(s, read_cmd_reg()));
    let s1 = rest_after(s, read_cmd_reg());
    match r {
        Err(e) => (Err(e), s1),
        Ok(v) => if v & SPI_CMD_USR == 0 {
            (Ok(()), s1)
        } else if polls <= 1 {
            (Err(EspLoaderError::Timeout), s1)
        } else {
            poll_idle(s1, (polls - 1) as nat)
        },
    }
}

/// Reads register `address` on the stream `s`: the value, and what is left.
pub open spec fn read_on(s: Seq<u8>, address: u32) -> (Result<u32, EspLoaderError>, Seq<u8>) {
    (
        value_result(reply_on(s, Command::ReadReg { address })),
        rest_after(s, Command::ReadReg { address }),
    )
}

/// The end of an SPI flash command once polling gave `p`: the received word
/// is read and the saved configuration written back.
pub open spec fn finish_command(p: (Result<(), EspLoaderError>, Seq<u8>), old_usr: u32, old_usr2: u32) -> (Result<u32, EspLoaderError>, Seq<u8>) {
    match p.0 {
        Err(e) => (Err(e), p.1),
        Ok(()) => {
            let (r6, s6) = read_on(p.1, SPI_W0_REG);
            match r6 {
                Err(e) => (Err(e), s6),
                Ok(v) => {
                    let (w3, s7) = run_writes(s6, seq![(SPI_USR_REG, old_usr), (SPI_USR2_REG, old_usr2)]);
                    match w3 {
                        Err(e) => (Err(e), s7),
                        Ok(()) => (Ok(v), s7),
                    }
                },
            }
        },
    }
}

/// Saving the configuration and setting up command `cmd` on the stream `s`:
/// the two saved user registers, and what is left.
pub open spec fn prepare_spec(s: Seq<u8>, cmd: u32, data: Seq<u32>, rx_size: u32) -> (Result<(u32, u32), EspLoaderError>, Seq<u8>) {
    let (r1, s1) = read_on(s, SPI_USR_REG);
    let (r2, s2) = read_on(s1, SPI_USR2_REG);
    let (w1, s3) = run_writes(s2, data_length_writes((8 * data.len()) as u32, rx_size));
    let (w2, s4) = run_writes(s3, command_writes(cmd, data, rx_size));
    match r1 {
        Err(e) => (Err(e), s1),
        Ok(old_usr) => match r2 {
            Err(e) => (Err(e), s2),
            Ok(old_usr2) => match w1 {
                Err(e) => (Err(e), s3),
                Ok(()) => match w2 {
                    Err(e) => (Err(e), s4),
                    Ok(()) => (Ok((old_usr, old_usr2)), s4),
                },
            },
        },
    }
}

/// The frames that saving the configuration and setting up command `cmd`
/// write on the stream `s`.
pub open spec fn prepare_frames(s: Seq<u8>, cmd: u32, data: Seq<u32>, rx_size: u32) -> Seq<u8> {
    let (r1, s1) = read_on(s, SPI_USR_REG);
    let (r2, s2) = read_on(s1, SPI_USR2_REG);
    let dl = data_length_writes((8 * data.len()) as u32, rx_size);
    let (w1, s3) = run_writes(s2, dl);
    let f1 = frame_of(Command::ReadReg { address: SPI_USR_REG });
    let f2 = frame_of(Command::ReadReg { address: SPI_USR2_REG });
    let fw1 = run_writes_frames(s2, dl);
    match r1 {
        Err(_) => f1,
        Ok(_) => match r2 {
            Err(_) => f1 + f2,
            Ok(_) => match w1 {
                Err(_) => f1 + f2 + fw1,
                Ok(()) => f1 + f2 + fw1 + run_writes_frames(s3, command_writes(cmd, data, rx_size)),
            },
        },
    }
}

/// The SPI flash command `cmd` on the stream `s`: the word received, and what is left.
pub open spec fn spi_command_spec(s: Seq<u8>, cmd: u32, data: Seq<u32>, rx_size: u32) -> (Result<u32, EspLoaderError>, Seq<u8>) {
    let (p, s4) = prepare_spec(s, cmd, data, rx_size);
    match p {
        Err(e) => (Err(e), s4),
        Ok(saved) => finish_command(poll_idle(s4, SPI_BUSY_POLLS as nat), saved.0, saved.1),
    }
}

/// The frames the busy-bit polling writes on the stream `s`: one read per poll.
pub open spec fn poll_frames(s: Seq<u8>, polls: nat) -> Seq<u8>
    decreases polls,
{
    let f = frame_of(read_cmd_reg());
    match value_result(reply_on(s, read_cmd_reg())) {
        Err(_) => f,
        Ok(v) => if v & SPI_CMD_USR == 0 || polls <= 1 {
            f
        } else {
            f + poll_frames(rest_after(s, read_cmd_reg()), (polls - 1) as nat)
        },
    }
}

/// The frames written by the end of an SPI flash command once polling gave `p`.
pub open spec fn finish_frames(p: (Result<(), EspLoaderError>, Seq<u8>), old_usr: u32, old_usr2: u32) -> Seq<u8> {
    match p.0 {
        Err(_) => Seq::empty(),
        Ok(()) => {
            let (r6, s6) = read_on(p.1, SPI_W0_REG);
            frame_of(Command::ReadReg { address: SPI_W0_REG }) + match r6 {
                Err(_) => Seq::empty(),
                Ok(_) => run_writes_frames(s6, seq![(SPI_USR_REG, old_usr), (SPI_USR2_REG, old_usr2)]),
            }
        },
    }
}

/// The frames the SPI flash command `cmd` writes on the stream `s`, up to
/// and including the first register access that fails.
pub open spec fn spi_command_frames(s: Seq<u8>, cmd: u32, data: Seq<u32>, rx_size: u32) -> Seq<u8> {
    let (p, s4) = prepare_spec(s, cmd, data, rx_size);
    prepare_frames(s, cmd, data, rx_size) + match p {
        Err(_) => Seq::empty(),
        Ok(saved) => poll_frames(s4, SPI_BUSY_POLLS as nat) + finish_frames(
            poll_idle(s4, SPI_BUSY_POLLS as nat),
            saved.0,
            saved.1,
        ),
    }
}

/// Reads a register, keeping track of how the link moved on.
fn read_reg_step(port: &mut Port, address: u32) -> (r: Result<u32, EspLoaderError>)
    requires
        old(port).wf(),
    ensures
        link_extends(*old(port), *final(port)),
        (r, final(port).pending()) == read_on(old(port).pending(), address),
        final(port).tx@ == old(port).tx@ + frame_of(Command::ReadReg { address }),
{
    let ghost p0 = *port;
    let r = esp_loader_read_register(port, address);
    proof {
        lemma_exchanged_extends(timed(p0, DEFAULT_TIMEOUT), *port, Command::ReadReg { address });
    }
    r
}

/// Saves the two user registers and programs the lengths, the command and
/// the data of a transfer, ending with the write that starts it.
fn spi_prepare(port: &mut Port, cmd: u32, data_tx: &[u32], rx_size: u32) -> (r: Result<(u32, u32), EspLoaderError>)
    requires
        old(port).wf(),
        cmd <= 0xFF,
        data_tx@.len() <= SPI_MAX_TX_WORDS,
        rx_size <= SPI_MAX_RX_BITS,
    ensures
        link_extends(*old(port), *final(port)),
        (r, final(port).pending()) == prepare_spec(old(port).pending(), cmd, data_tx@, rx_size),
        final(port).tx@ == old(port).tx@ + prepare_frames(old(port).pending(), cmd, data_tx@, rx_size),
{
    let ghost p0 = *port;
    let ghost pp;
    let old_spi_usr = match read_reg_step(port, SPI_USR_REG) {
        Ok(v) => v,
        Err(e) => {
            return Err(e);
        },
    };
    proof { pp = *port; }
    let old_spi_usr2 = match read_reg_step(port, SPI_USR2_REG) {
        Ok(v) => v,
        Err(e) => {
            proof { lemma_extends_trans(p0, pp, *port); }
            return Err(e);
        },
    };
    proof { lemma_extends_trans(p0, pp, *port); pp = *port; }
    let tx_size: u32 = 8 * data_tx.len() as u32;
    let res = spi_set_data_lengths(port, tx_size, rx_size);
    proof { lemma_extends_trans(p0, pp, *port); pp = *port; }
    match res {
        Ok(()) => {},
        Err(e) => {
            return Err(e);
        },
    }
    let usr_reg_2: u32 = SPI_USR2_CMD_LEN | cmd;
    let mut usr_reg: u32 = SPI_USR_CMD;
    if rx_size > 0 {
        usr_reg = usr_reg | SPI_USR_MISO;
    }
    if tx_size > 0 {
        usr_reg = usr_reg | SPI_USR_MOSI;
    }
    let mut writes: Vec<(u32, u32)> = Vec::new();
    writes.push((SPI_USR_REG, usr_reg));
    writes.push((SPI_USR2_REG, usr_reg_2));
    if tx_size == 0 {
        writes.push((SPI_W0_REG, 0));
    } else {
        let mut i: usize = 0;
        while i < data_tx.len()
            invariant
                i <= data_tx@.len(),
                data_tx@.len() <= SPI_MAX_TX_WORDS,
                writes@ == seq![(SPI_USR_REG, usr_reg), (SPI_USR2_REG, usr_reg_2)] + Seq::new(
                    i as nat,
                    |j: int| ((SPI_W0_REG + 4 * j) as u32, data_tx@[j]),
                ),
            decreases data_tx@.len() - i,
        {
            writes.push((SPI_W0_REG + (i as u32) * 4, data_tx[i]));
            proof {
                assert(writes@ =~= seq![(SPI_USR_REG, usr_reg), (SPI_USR2_REG, usr_reg_2)] + Seq::new(
                    (i + 1) as nat,
                    |j: int| ((SPI_W0_REG + 4 * j) as u32, data_tx@[j]),
                ));
            }
            i += 1;
        }
    }
    writes.push((SPI_CMD_REG, SPI_CMD_USR));
    assert(writes@ =~= command_writes(cmd, data_tx@, rx_size));
    let res = write_all(port, &writes);
    proof { lemma_extends_trans(p0, pp, *port); }
    match res {
        Ok(()) => Ok((old_spi_usr, old_spi_usr2)),
        Err(e) => Err(e),
    }
}

/// Polls the busy bit until it clears, at most `SPI_BUSY_POLLS` times.
fn spi_poll(port: &mut Port) -> (r: Result<(), EspLoaderError>)
    requires
        old(port).wf(),
    ensures
        link_extends(*old(port), *final(port)),
        (r, final(port).pending()) == poll_idle(old(port).pending(), SPI_BUSY_POLLS as nat),
        final(port).tx@ == old(port).tx@ + poll_frames(old(port).pending(), SPI_BUSY_POLLS as nat),
{
    let ghost p0 = *port;
    let ghost s4 = port.pending();
    let ghost t4 = port.tx@;
    proof {
        assert(p0.tx@.take(p0.tx@.len() as int) =~= p0.tx@);
    }
    let mut polls: u32 = SPI_BUSY_POLLS;
    loop
        invariant_except_break
            1 <= polls <= SPI_BUSY_POLLS,
            poll_idle(s4, SPI_BUSY_POLLS as nat) == poll_idle(port.pending(), polls as nat),
            t4 + poll_frames(s4, SPI_BUSY_POLLS as nat) == port.tx@ + poll_frames(port.pending(), polls as nat),
        invariant
            p0 == *old(port),
            s4 == p0.pending(),
            t4 == p0.tx@,
            port.wf(),
            link_extends(p0, *port),
        ensures
            poll_idle(s4, SPI_BUSY_POLLS as nat) == (Ok::<(), EspLoaderError>(()), port.pending()),
            port.tx@ == t4 + poll_frames(s4, SPI_BUSY_POLLS as nat),
        decreases polls,
    {
        let ghost pk = *port;
        let ghost before = port.pending();
        let ghost pb = polls as nat;
        polls -= 1;
        let res = read_reg_step(port, SPI_CMD_REG);
        proof {
            lemma_extends_trans(p0, pk, *port);
            let (pr, ps) = read_on(before, SPI_CMD_REG);
            let f = frame_of(read_cmd_reg());
            assert(poll_frames(before, pb) == match pr {
                Err(_) => f,
                Ok(v) => if v & SPI_CMD_USR == 0 || pb <= 1 {
                    f
                } else {
                    f + poll_frames(ps, (pb - 1) as nat)
                },
            });
            if pr is Ok && pr->Ok_0 & SPI_CMD_USR != 0 && pb > 1 {
                assert(pk.tx@ + (f + poll_frames(ps, (pb - 1) as nat)) =~= port.tx@ + poll_frames(ps, (pb - 1) as nat));
            } else {
                assert(t4 + poll_frames(s4, SPI_BUSY_POLLS as nat) =~= port.tx@ + Seq::<u8>::empty());
            }
            assert(poll_idle(before, pb) == match pr {
                Err(e) => (Err(e), ps),
                Ok(v) => if v & SPI_CMD_USR == 0 {
                    (Ok(()), ps)
                } else if pb <= 1 {
                    (Err(EspLoaderError::Timeout), ps)
                } else {
                    poll_idle(ps, (pb - 1) as nat)
                },
            });
        }
        let reg = match res {
            Ok(v) => v,
            Err(e) => {
                return Err(e);
            },
        };
        if reg & SPI_CMD_USR == 0 {
            break;
        } else if polls == 0 {
            return Err(EspLoaderError::Timeout);
        }
    }
    Ok(())
}

/// Reads the received word and writes the saved configuration back.
fn spi_finish(port: &mut Port, old_spi_usr: u32, old_spi_usr2: u32) -> (r: Result<u32, EspLoaderError>)
    requires
        old(port).wf(),
    ensures
        link_extends(*old(port), *final(port)),
        (r, final(port).pending()) == finish_command(
            (Ok::<(), EspLoaderError>(()), old(port).pending()),
            old_spi_usr,
            old_spi_usr2,
        ),
        final(port).tx@ == old(port).tx@ + finish_frames(
            (Ok::<(), EspLoaderError>(()), old(port).pending()),
            old_spi_usr,
            old_spi_usr2,
        ),
{
    let ghost p0 = *port;
    let data_rx = match read_reg_step(port, SPI_W0_REG) {
        Ok(v) => v,
        Err(e) => {
            proof { assert(port.tx@ =~= p0.tx@ + (frame_of(Command::ReadReg { address: SPI_W0_REG }) + Seq::<u8>::empty())); }
            return Err(e);
        },
    };
    let ghost pp = *port;
    let mut restore: Vec<(u32, u32)> = Vec::new();
    restore.push((SPI_USR_REG, old_spi_usr));
    restore.push((SPI_USR2_REG, old_spi_usr2));
    assert(restore@ =~= seq![(SPI_USR_REG, old_spi_usr), (SPI_USR2_REG, old_spi_usr2)]);
    let res = write_all(port, &restore);
    proof {
        lemma_extends_trans(p0, pp, *port);
        assert(port.tx@ =~= p0.tx@ + (frame_of(Command::ReadReg { address: SPI_W0_REG }) + run_writes_frames(pp.pending(), restore@)));
    }
    match res {
        Ok(()) => Ok(data_rx),
        Err(e) => Err(e),
    }
}

/// Runs one SPI flash command through the SPI peripheral's registers: saves
/// the user configuration, programs the lengths, the command and the data to
/// send, starts the transfer, polls the busy bit a bounded number of times,
/// reads the received word and restores the configuration.
pub fn spi_flash_command(port: &mut Port, cmd: u32, data_tx: &[u32], rx_size: u32) -> (r: Result<u32, EspLoaderError>)
    requires
        old(port).wf(),
        cmd <= 0xFF,
        data_tx@.len() <= SPI_MAX_TX_WORDS,
        rx_size <= SPI_MAX_RX_BITS,
    ensures
        link_extends(*old(port), *final(port)),
        (r, final(port).pending()) == spi_command_spec(old(port).pending(), cmd, data_tx@, rx_size),
        final(port).tx@ == old(port).tx@ + spi_command_frames(old(port).pending(), cmd, data_tx@, rx_size),
{
    let ghost p0 = *port;
    let saved = spi_prepare(port, cmd, data_tx, rx_size);
    let (old_spi_usr, old_spi_usr2) = match saved {
        Ok(v) => v,
        Err(e) => {
            proof { assert(port.tx@ =~= p0.tx@ + spi_command_frames(p0.pending(), cmd, data_tx@, rx_size)); }
            return Err(e);
        },
    };
    let ghost p1 = *port;
    let polled = spi_poll(port);
    proof { lemma_extends_trans(p0, p1, *port); }
    let ghost p2 = *port;
    match polled {
        Ok(()) => {},
        Err(e) => {
            proof { assert(port.tx@ =~= p0.tx@ + spi_command_frames(p0.pending(), cmd, data_tx@, rx_size)); }
            return Err(e);
        },
    }
    let r = spi_finish(port, old_spi_usr, old_spi_usr2);
    proof {
        lemma_extends_trans(p0, p2, *port);
        assert(port.tx@ =~= p0.tx@ + spi_command_frames(p0.pending(), cmd, data_tx@, rx_size));
    }
    r
}

/// Capacity in bytes of the flash with size identifier `size_id`, from 256 KB
/// at 0x12 doubling up to 16 MB at 0x18.
pub open spec fn flash_size_spec(size_id: u32) -> Result<u32, EspLoaderError> {
    if size_id == 0x12 {
        Ok(0x40000)
    } else if size_id == 0x13 {
        Ok(0x80000)
    } else if size_id == 0x14 {
        Ok(0x100000)
    } else if size_id == 0x15 {
        Ok(0x200000)
    } else if size_id == 0x16 {
        Ok(0x400000)
    } else if size_id == 0x17 {
        Ok(0x800000)
    } else if size_id == 0x18 {
        Ok(0x1000000)
    } else {
        Err(EspLoaderError::UnsupportedChip)
    }
}

/// Looks a size identifier up in the flash-size table.
pub fn flash_size_for_id(size_id: u32) -> (r: Result<u32, EspLoaderError>)
    ensures
        r == flash_size_spec(size_id),
{
    match size_id {
        0x12 => Ok(0x40000),
        0x13 => Ok(0x80000),
        0x14 => Ok(0x100000),
        0x15 => Ok(0x200000),
        0x16 => Ok(0x400000),
        0x17 => Ok(0x800000),
        0x18 => Ok(0x1000000),
        _ => Err(EspLoaderError::UnsupportedChip),
    }
}

/// Capacity of the flash whose JEDEC identifier is `flash_id`: its top byte
/// is the size identifier.
pub fn flash_size_for_jedec_id(flash_id: u32) -> (r: Result<u32, EspLoaderError>)
    ensures
        r == flash_size_spec(flash_id / 0x10000),
{
    flash_size_for_id(flash_id / 0x10000)
}

/// Flash size detection on the stream `s`: the capacity, and what is left.
pub open spec fn detect_flash_spec(s: Seq<u8>) -> (Result<u32, EspLoaderError>, Seq<u8>) {
    let (r, s1) = spi_command_spec(s, SPI_FLASH_READ_ID, Seq::empty(), 24);
    (
        match r {
            Ok(id) => flash_size_spec(id / 0x10000),
            Err(e) => Err(e),
        },
        s1,
    )
}

/// The frames flash size detection writes on the stream `s`.
pub open spec fn detect_flash_frames(s: Seq<u8>) -> Seq<u8> {
    spi_command_frames(s, SPI_FLASH_READ_ID, Seq::empty(), 24)
}

/// Reads the flash's JEDEC identifier and looks its size up.
pub fn detect_flash_size(port: &mut Port) -> (r: Result<u32, EspLoaderError>)
    requires
        old(port).wf(),
    ensures
        link_extends(*old(port), *final(port)),
        (r, final(port).pending()) == detect_flash_spec(old(port).pending()),
        final(port).tx@ == old(port).tx@ + detect_flash_frames(old(port).pending()),
{
    let no_data: Vec<u32> = Vec::new();
    assert(no_data@ =~= Seq::<u32>::empty());
    let flash_id = match spi_flash_command(port, SPI_FLASH_READ_ID, no_data.as_slice(), 24) {
        Ok(v) => v,
        Err(e) => {
            return Err(e);
        },
    };
    flash_size_for_jedec_id(flash_id)
}

} // verus!
