//! The link to the device and its timer, held as plain values: the bytes the
//! device has sent and not yet been read, the bytes written to it, the active
//! timer, and the delays and device-control actions requested so far.
use vstd::prelude::*;
use crate::error::EspLoaderError;
use crate::comm::push_all;

verus! {

pub struct Port {
    /// Everything the device has sent.
    pub rx: Vec<u8>,
    /// How much of `rx` has been read.
    pub rx_pos: usize,
    /// Everything written to the device.
    pub tx: Vec<u8>,
    /// The duration the single active timer was last armed with, in ms.
    pub timer_ms: u32,
    /// Every delay requested, in order: how many bytes had been written to
    /// the device when it began, and its length in ms.
    pub delays: Vec<(usize, u32)>,
    /// Whether the device has been forced into its bootloader.
    pub in_bootloader: bool,
    /// Whether a reset of the device has been requested.
    pub reset_requested: bool,
    /// Diagnostic lines, oldest first.
    pub debug: Vec<Vec<u8>>,
}

impl Port {
    pub open spec fn wf(&self) -> bool {
        self.rx_pos <= self.rx@.len()
    }

    /// The bytes that have arrived and not been read.
    pub open spec fn pending(&self) -> Seq<u8> {
        self.rx@.skip(self.rx_pos as int)
    }

    /// A link over which the device will send `rx`.
    pub fn new(rx: Vec<u8>) -> (r: Port)
        ensures
            r.wf(),
            r.rx@ == rx@,
            r.rx_pos == 0,
            r.tx@ == Seq::<u8>::empty(),
            r.timer_ms == 0,
            r.delays@ == Seq::<(usize, u32)>::empty(),
            !r.in_bootloader,
            !r.reset_requested,
            r.debug@ == Seq::<Vec<u8>>::empty(),
    {
        Port {
            rx,
            rx_pos: 0,
            tx: Vec::new(),
            timer_ms: 0,
            delays: Vec::new(),
            in_bootloader: false,
            reset_requested: false,
            debug: Vec::new(),
        }
    }
}

/// `b` is `a` with only the read position moved.
pub open spec fn same_but_read(a: Port, b: Port) -> bool {
    &&& b.rx@ == a.rx@
    &&& b.tx@ == a.tx@
    &&& b.timer_ms == a.timer_ms
    &&& b.delays@ == a.delays@
    &&& b.in_bootloader == a.in_bootloader
    &&& b.reset_requested == a.reset_requested
    &&& b.debug@ == a.debug@
}

/// Fills `buff` with the next bytes from the device. The in-memory link has
/// delivered all it will at once, so the outcome rests on what has arrived:
/// when fewer bytes remain than asked for, the deadline passes, the
/// remaining bytes are read and lost, and the call times out.
pub fn loader_port_serial_read(port: &mut Port, buff: &mut Vec<u8>, _timeout: u32) -> (r: Result<(), EspLoaderError>)
    requires
        old(port).wf(),
    ensures
        final(port).wf(),
        same_but_read(*old(port), *final(port)),
        old(port).pending().len() >= old(buff)@.len() ==> {
            &&& r is Ok
            &&& final(buff)@ == old(port).pending().take(old(buff)@.len() as int)
            &&& final(port).rx_pos == old(port).rx_pos + old(buff)@.len()
        },
        old(port).pending().len() < old(buff)@.len() ==> {
            &&& r == Err::<(), EspLoaderError>(EspLoaderError::Timeout)
            &&& final(buff)@ == old(buff)@
            &&& final(port).rx_pos == old(port).rx@.len()
        },
{
    let n = buff.len();
    if port.rx.len() - port.rx_pos < n {
        port.rx_pos = port.rx.len();
        return Err(EspLoaderError::Timeout);
    }
    let start = port.rx_pos;
    let end = start + n;
    let mut out: Vec<u8> = Vec::new();
    let mut i: usize = 0;
    while i < n
        invariant
            i <= n,
            port.wf(),
            start == port.rx_pos,
            end == start + n,
            end <= port.rx@.len(),
            port.rx@ == old(port).rx@,
            port.rx_pos == old(port).rx_pos,
            out@ == old(port).pending().take(i as int),
        decreases n - i,
    {
        out.push(port.rx[start + i]);
        proof {
            assert(out@ =~= old(port).pending().take(i + 1));
        }
        i += 1;
    }
    port.rx_pos = end;
    *buff = out;
    Ok(())
}

/// Sends `buff` to the device. The in-memory link accepts every write.
pub fn loader_port_serial_write(port: &mut Port, buff: &[u8], _timeout: u32) -> (r: Result<(), EspLoaderError>)
    ensures
        r is Ok,
        final(port).tx@ == old(port).tx@ + buff@,
        final(port).rx@ == old(port).rx@,
        final(port).rx_pos == old(port).rx_pos,
        final(port).timer_ms == old(port).timer_ms,
        final(port).delays@ == old(port).delays@,
        final(port).in_bootloader == old(port).in_bootloader,
        final(port).reset_requested == old(port).reset_requested,
        final(port).debug@ == old(port).debug@,
{
    let mut i: usize = 0;
    while i < buff.len()
        invariant
            i <= buff.len(),
            port.tx@ == old(port).tx@ + buff@.take(i as int),
            port.rx@ == old(port).rx@,
            port.rx_pos == old(port).rx_pos,
            port.timer_ms == old(port).timer_ms,
            port.delays@ == old(port).delays@,
            port.in_bootloader == old(port).in_bootloader,
            port.reset_requested == old(port).reset_requested,
            port.debug@ == old(port).debug@,
        decreases buff.len() - i,
    {
        port.tx.push(buff[i]);
        proof {
            assert(buff@.take(i + 1) =~= buff@.take(i as int).push(buff@[i as int]));
            assert(port.tx@ =~= old(port).tx@ + buff@.take(i + 1));
        }
        i += 1;
    }
    proof {
        assert(buff@.take(i as int) =~= buff@);
    }
    Ok(())
}

/// The duration of the active timer, in ms.
pub fn loader_port_remaining_time(port: &Port) -> (r: u32)
    ensures
        r == port.timer_ms,
{
    port.timer_ms
}

/// Re-arms the single active timer with `ms`.
pub fn loader_port_start_timer(port: &mut Port, ms: u32)
    ensures
        *final(port) == (Port { timer_ms: ms, ..*old(port) }),
{
    port.timer_ms = ms;
}

/// Forces the device into its bootloader.
pub fn loader_port_enter_bootloader(port: &mut Port)
    ensures
        *final(port) == (Port { in_bootloader: true, ..*old(port) }),
{
    port.in_bootloader = true;
}

/// Waits `ms` milliseconds; the link records the wait.
pub fn loader_port_delay_ms(port: &mut Port, ms: u32)
    ensures
        final(port).delays@ == old(port).delays@.push((old(port).tx@.len() as usize, ms)),
        final(port).rx@ == old(port).rx@,
        final(port).rx_pos == old(port).rx_pos,
        final(port).tx@ == old(port).tx@,
        final(port).timer_ms == old(port).timer_ms,
        final(port).in_bootloader == old(port).in_bootloader,
        final(port).reset_requested == old(port).reset_requested,
        final(port).debug@ == old(port).debug@,
{
    let at = port.tx.len();
    port.delays.push((at, ms));
}

/// Records the diagnostic line `msg`.
pub fn loader_port_debug_print(port: &mut Port, msg: &[u8])
    ensures
        final(port).debug@.len() == old(port).debug@.len() + 1,
        final(port).debug@.last()@ == msg@,
        final(port).debug@.drop_last() == old(port).debug@,
        same_but_read(*old(port), Port { debug: old(port).debug, ..*final(port) }),
        final(port).rx_pos == old(port).rx_pos,
{
    let mut line: Vec<u8> = Vec::new();
    push_all(&mut line, msg);
    port.debug.push(line);
    proof {
        assert(final(port).debug@.drop_last() =~= old(port).debug@);
    }
}

/// Resets the device.
pub fn loader_port_reset_target(port: &mut Port)
    ensures
        *final(port) == (Port { reset_requested: true, ..*old(port) }),
{
    port.reset_requested = true;
}

} // verus!
