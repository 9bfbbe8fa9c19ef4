use vstd::prelude::*;

verus! {

/// Opcodes of the panel's controller.
pub const EL673_PSR: u8 = 0x00;
pub const EL673_PWR: u8 = 0x01;
pub const EL673_POF: u8 = 0x02;
pub const EL673_POFS: u8 = 0x03;
pub const EL673_PON: u8 = 0x04;
pub const EL673_BTST1: u8 = 0x05;
pub const EL673_BTST2: u8 = 0x06;
pub const EL673_BTST3: u8 = 0x08;
pub const EL673_DTM1: u8 = 0x10;
pub const EL673_DRF: u8 = 0x12;
pub const EL673_PLL: u8 = 0x30;
pub const EL673_CDI: u8 = 0x50;
pub const EL673_TCON: u8 = 0x60;
pub const EL673_TRES: u8 = 0x61;
pub const EL673_VDCS: u8 = 0x82;
pub const EL673_PWS: u8 = 0xE3;
/// The vendor command that opens the initialisation sequence.
pub const EL673_INIT: u8 = 0xAA;

/// Largest payload written to the bus in one transfer.
pub const SPI_CHUNK_SIZE: usize = 4096;

/// Settling delay before every opcode, in milliseconds.
pub const COMMAND_SETTLE_MS: u32 = 300;

/// Interval between reads of the busy line, in milliseconds.
pub const BUSY_POLL_MS: u32 = 100;

/// One step of a panel update, carried out by whoever owns the bus and lines.
#[derive(Debug, Clone)]
pub enum Step {
    /// Drive the reset line to the level.
    SetReset(u8),
    /// Sleep for the milliseconds.
    SleepMs(u32),
    /// Wait on the busy line for at most the milliseconds.
    BusyWait(u32),
    /// Send an opcode, with its payload if any.
    Command(u8, Option<Vec<u8>>),
}

/// A step, with its payload as a sequence of bytes.
pub enum StepSpec {
    SetReset(u8),
    SleepMs(u32),
    BusyWait(u32),
    Command(u8, Option<Seq<u8>>),
}

impl View for Step {
    type V = StepSpec;

    open spec fn view(&self) -> StepSpec {
        match self {
            Step::SetReset(l) => StepSpec::SetReset(*l),
            Step::SleepMs(ms) => StepSpec::SleepMs(*ms),
            Step::BusyWait(ms) => StepSpec::BusyWait(*ms),
            Step::Command(op, Some(d)) => StepSpec::Command(*op, Some(d@)),
            Step::Command(op, None) => StepSpec::Command(*op, None),
        }
    }
}

/// An opcode with a payload.
pub open spec fn cmd(op: u8, data: Seq<u8>) -> StepSpec {
    StepSpec::Command(op, Some(data))
}

/// Reset pulse, then the initialisation table of the panel revision.
pub open spec fn setup_steps() -> Seq<StepSpec> {
    seq![
        StepSpec::SetReset(0),
        StepSpec::SleepMs(30),
        StepSpec::SetReset(1),
        StepSpec::SleepMs(30),
        StepSpec::BusyWait(300),
        cmd(EL673_INIT, seq![0x49, 0x55, 0x20, 0x08, 0x09, 0x18]),
        cmd(EL673_PWR, seq![0x3F]),
        cmd(EL673_PSR, seq![0x5F, 0x69]),
        cmd(EL673_BTST1, seq![0x40, 0x1F, 0x1F, 0x2C]),
        cmd(EL673_BTST3, seq![0x6F, 0x1F, 0x1F, 0x22]),
        cmd(EL673_BTST2, seq![0x6F, 0x1F, 0x17, 0x17]),
        cmd(EL673_POFS, seq![0x00, 0x54, 0x00, 0x44]),
        cmd(EL673_TCON, seq![0x02, 0x00]),
        cmd(EL673_PLL, seq![0x08]),
        cmd(EL673_CDI, seq![0x3F]),
        cmd(EL673_TRES, seq![0x03, 0x20, 0x01, 0xE0]),
        cmd(EL673_PWS, seq![0x2F]),
        cmd(EL673_VDCS, seq![0x01]),
    ]
}

/// The whole update for a packed pixel buffer: setup, data transfer, power on,
/// second booster setting, refresh, power off.
pub open spec fn update_steps(packed: Seq<u8>) -> Seq<StepSpec> {
    setup_steps() + seq![
        cmd(EL673_DTM1, packed),
        StepSpec::Command(EL673_PON, None),
        StepSpec::BusyWait(300),
        cmd(EL673_BTST2, seq![0x6F, 0x1F, 0x17, 0x49]),
        cmd(EL673_DRF, seq![0x00]),
        StepSpec::BusyWait(32_000),
        cmd(EL673_POF, seq![0x00]),
        StepSpec::BusyWait(300),
    ]
}

/// The views of a list of steps.
pub open spec fn views(steps: Seq<Step>) -> Seq<StepSpec> {
    steps.map_values(|s: Step| s@)
}

fn command(op: u8, data: Vec<u8>) -> (r: Step)
    ensures
        r@ == cmd(op, data@),
{
    Step::Command(op, Some(data))
}

/// The steps of a panel update that transfers `packed`, in order.
pub fn update_plan(packed: Vec<u8>) -> (r: Vec<Step>)
    ensures
        views(r@) == update_steps(packed@),
{
    let ghost data = packed@;
    let init: Vec<u8> = vec![0x49, 0x55, 0x20, 0x08, 0x09, 0x18];
    assert(init@ =~= seq![0x49, 0x55, 0x20, 0x08, 0x09, 0x18]);
    let pwr: Vec<u8> = vec![0x3F];
    assert(pwr@ =~= seq![0x3F]);
    let psr: Vec<u8> = vec![0x5F, 0x69];
    assert(psr@ =~= seq![0x5F, 0x69]);
    let btst1: Vec<u8> = vec![0x40, 0x1F, 0x1F, 0x2C];
    assert(btst1@ =~= seq![0x40, 0x1F, 0x1F, 0x2C]);
    let btst3: Vec<u8> = vec![0x6F, 0x1F, 0x1F, 0x22];
    assert(btst3@ =~= seq![0x6F, 0x1F, 0x1F, 0x22]);
    let btst2: Vec<u8> = vec![0x6F, 0x1F, 0x17, 0x17];
    assert(btst2@ =~= seq![0x6F, 0x1F, 0x17, 0x17]);
    let pofs: Vec<u8> = vec![0x00, 0x54, 0x00, 0x44];
    assert(pofs@ =~= seq![0x00, 0x54, 0x00, 0x44]);
    let tcon: Vec<u8> = vec![0x02, 0x00];
    assert(tcon@ =~= seq![0x02, 0x00]);
    let pll: Vec<u8> = vec![0x08];
    assert(pll@ =~= seq![0x08]);
    let cdi: Vec<u8> = vec![0x3F];
    assert(cdi@ =~= seq![0x3F]);
    let tres: Vec<u8> = vec![0x03, 0x20, 0x01, 0xE0];
    assert(tres@ =~= seq![0x03, 0x20, 0x01, 0xE0]);
    let pws: Vec<u8> = vec![0x2F];
    assert(pws@ =~= seq![0x2F]);
    let vdcs: Vec<u8> = vec![0x01];
    assert(vdcs@ =~= seq![0x01]);
    let btst2_again: Vec<u8> = vec![0x6F, 0x1F, 0x17, 0x49];
    assert(btst2_again@ =~= seq![0x6F, 0x1F, 0x17, 0x49]);
    let drf: Vec<u8> = vec![0x00];
    assert(drf@ =~= seq![0x00]);
    let pof: Vec<u8> = vec![0x00];
    assert(pof@ =~= seq![0x00]);
    let r = vec![
        Step::SetReset(0),
        Step::SleepMs(30),
        Step::SetReset(1),
        Step::SleepMs(30),
        Step::BusyWait(300),
        command(EL673_INIT, init),
        command(EL673_PWR, pwr),
        command(EL673_PSR, psr),
        command(EL673_BTST1, btst1),
        command(EL673_BTST3, btst3),
        command(EL673_BTST2, btst2),
        command(EL673_POFS, pofs),
        command(EL673_TCON, tcon),
        command(EL673_PLL, pll),
        command(EL673_CDI, cdi),
        command(EL673_TRES, tres),
        command(EL673_PWS, pws),
        command(EL673_VDCS, vdcs),
        command(EL673_DTM1, packed),
        Step::Command(EL673_PON, None),
        Step::BusyWait(300),
        command(EL673_BTST2, btst2_again),
        command(EL673_DRF, drf),
        Step::BusyWait(32_000),
        command(EL673_POF, pof),
        Step::BusyWait(300),
    ];
    proof {
        let u = update_steps(data);
        assert(u.len() == 26);
        assert(setup_steps().len() == 18);
        assert(r@.len() == 26);
        assert forall|i: int| 0 <= i < 26 implies views(r@)[i] == u[i] by {}
        assert(views(r@) =~= u);
    }
    r
}

/// The `k`-th piece `[start, end)` of a payload of `len` bytes written in
/// `SPI_CHUNK_SIZE` pieces.
pub open spec fn chunk_at(len: int, k: int) -> (int, int) {
    let start = k * SPI_CHUNK_SIZE;
    (start, if start + SPI_CHUNK_SIZE <= len { start + SPI_CHUNK_SIZE } else { len })
}

/// The pieces a payload of `len` bytes is written in: consecutive, in order,
/// each `SPI_CHUNK_SIZE` bytes long but the last.
pub fn payload_chunks(len: usize) -> (r: Vec<(usize, usize)>)
    ensures
        r@.len() == (len + SPI_CHUNK_SIZE - 1) / SPI_CHUNK_SIZE as int,
        forall|k: int|
            0 <= k < r@.len() ==> (#[trigger] r@[k]).0 == chunk_at(len as int, k).0 && r@[k].1
                == chunk_at(len as int, k).1,
{
    let mut r: Vec<(usize, usize)> = Vec::new();
    let mut start: usize = 0;
    while start < len
        invariant
            start <= len,
            start < len ==> start == r@.len() * SPI_CHUNK_SIZE,
            start < len ==> r@.len() < (len + SPI_CHUNK_SIZE - 1) / SPI_CHUNK_SIZE as int,
            start == len ==> r@.len() == (len + SPI_CHUNK_SIZE - 1) / SPI_CHUNK_SIZE as int,
            forall|k: int|
                0 <= k < r@.len() ==> (#[trigger] r@[k]).0 == chunk_at(len as int, k).0
                    && r@[k].1 == chunk_at(len as int, k).1,
        decreases len - start,
    {
        let end = if len - start >= SPI_CHUNK_SIZE {
            start + SPI_CHUNK_SIZE
        } else {
            len
        };
        r.push((start, end));
        start = end;
    }
    r
}

/// Where a busy-wait stands.
#[derive(Debug, Clone, Copy, PartialEq, Eq)]
pub enum BusyPhase {
    /// Just entered: the line has been read once.
    Entry,
    /// Polling: the line has just been read again.
    Polling,
    /// Polling: a poll interval has just been slept.
    Slept,
}

/// What a busy-wait does next.
#[derive(Debug, Clone, Copy, PartialEq, Eq)]
pub enum BusyAction {
    /// The panel was busy on entry: sleep the whole timeout, then finish.
    SleepTimeout,
    /// Read the line again (phase `Polling`).
    ReadLine,
    /// Sleep one poll interval (phase `Slept`).
    SleepPoll,
    /// The line reads ready: finish.
    Ready,
    /// The timeout has passed: finish all the same, with a warning.
    TimedOut,
}

/// The busy-wait's rule, where the line reads 1 when the panel is ready and 0 when
/// it is busy: busy on entry means sleeping the whole timeout; else poll every
/// `BUSY_POLL_MS` until the line reads 1 or the timeout has passed. Every way out
/// is a success.
pub open spec fn busy_next(phase: BusyPhase, level: u8, elapsed_ms: u64, timeout_ms: u64) -> BusyAction {
    match phase {
        BusyPhase::Entry => if level == 0 {
            BusyAction::SleepTimeout
        } else {
            BusyAction::ReadLine
        },
        BusyPhase::Polling => if level == 1 {
            BusyAction::Ready
        } else {
            BusyAction::SleepPoll
        },
        BusyPhase::Slept => if elapsed_ms > timeout_ms {
            BusyAction::TimedOut
        } else {
            BusyAction::ReadLine
        },
    }
}

/// The next action of a busy-wait, from its phase, the busy line's level just read
/// (ignored after a sleep), and the milliseconds since polling began.
pub fn busy_wait_next(phase: BusyPhase, level: u8, elapsed_ms: u64, timeout_ms: u64) -> (r: BusyAction)
    ensures
        r == busy_next(phase, level, elapsed_ms, timeout_ms),
{
    match phase {
        BusyPhase::Entry => if level == 0 {
            BusyAction::SleepTimeout
        } else {
            BusyAction::ReadLine
        },
        BusyPhase::Polling => if level == 1 {
            BusyAction::Ready
        } else {
            BusyAction::SleepPoll
        },
        BusyPhase::Slept => if elapsed_ms > timeout_ms {
            BusyAction::TimedOut
        } else {
            BusyAction::ReadLine
        },
    }
}

/// One line or bus operation of a command transfer.
#[derive(Debug, Clone, Copy, PartialEq, Eq)]
pub enum Signal {
    /// Drive the chip-select line to the level.
    ChipSelect(u8),
    /// Drive the command/data line to the level (0 command, 1 data).
    DataCommand(u8),
    /// Sleep for the milliseconds.
    SleepMs(u32),
    /// Write the opcode byte.
    WriteOpcode(u8),
    /// Write the payload bytes `[start, end)`.
    WritePayload(usize, usize),
}

/// The payload writes of a payload of `len` bytes, one per piece.
pub open spec fn payload_writes(len: int) -> Seq<Signal> {
    Seq::new(
        ((len + SPI_CHUNK_SIZE - 1) / SPI_CHUNK_SIZE as int) as nat,
        |k: int| Signal::WritePayload(chunk_at(len, k).0 as usize, chunk_at(len, k).1 as usize),
    )
}

/// How a command goes over the wire: select the chip in command mode, wait for the
/// panel to settle, write the opcode; with a payload, switch to data mode and
/// write it piece by piece; then deselect and return to command mode.
pub open spec fn command_signals_spec(op: u8, payload_len: Option<int>) -> Seq<Signal> {
    let head = seq![
        Signal::ChipSelect(0),
        Signal::DataCommand(0),
        Signal::SleepMs(COMMAND_SETTLE_MS),
        Signal::WriteOpcode(op),
    ];
    let body = match payload_len {
        Some(n) => seq![Signal::DataCommand(1)] + payload_writes(n),
        None => Seq::empty(),
    };
    head + body + seq![Signal::ChipSelect(1), Signal::DataCommand(0)]
}

/// The signals that send opcode `op` with a payload of `payload_len` bytes, if any.
pub fn command_signals(op: u8, payload_len: Option<usize>) -> (r: Vec<Signal>)
    ensures
        r@ == command_signals_spec(
            op,
            match payload_len {
                Some(n) => Some(n as int),
                None => None,
            },
        ),
{
    let mut r: Vec<Signal> = Vec::new();
    r.push(Signal::ChipSelect(0));
    r.push(Signal::DataCommand(0));
    r.push(Signal::SleepMs(COMMAND_SETTLE_MS));
    r.push(Signal::WriteOpcode(op));
    let ghost head = r@;
    if let Some(n) = payload_len {
        r.push(Signal::DataCommand(1));
        let chunks = payload_chunks(n);
        let ghost before = r@;
        let mut k: usize = 0;
        while k < chunks.len()
            invariant
                k <= chunks@.len(),
                chunks@.len() == (n + SPI_CHUNK_SIZE - 1) / SPI_CHUNK_SIZE as int,
                forall|j: int|
                    0 <= j < chunks@.len() ==> (#[trigger] chunks@[j]).0 == chunk_at(n as int, j).0
                        && chunks@[j].1 == chunk_at(n as int, j).1,
                r@ == before + payload_writes(n as int).take(k as int),
            decreases chunks@.len() - k,
        {
            let (start, end) = chunks[k];
            r.push(Signal::WritePayload(start, end));
            proof {
                assert(payload_writes(n as int).take(k as int + 1) =~= payload_writes(n as int).take(
                    k as int,
                ).push(Signal::WritePayload(start, end)));
            }
            k = k + 1;
        }
        proof {
            assert(payload_writes(n as int).take(k as int) =~= payload_writes(n as int));
        }
    }
    r.push(Signal::ChipSelect(1));
    r.push(Signal::DataCommand(0));
    proof {
        assert(r@ =~= command_signals_spec(
            op,
            match payload_len {
                Some(n) => Some(n as int),
                None => None,
            },
        ));
    }
    r
}

} // verus!
