//! The execution engine: the register file, the fetch-decode-execute cycle,
//! opcode semantics, and the real-time pacing and timer model.
//!
//! Two policy choices are fixed here and visible in the contracts. The
//! subtract opcodes wrap modulo 256 when the subtrahend is larger (the
//! borrow flag still reports which operand was larger), and the index
//! register adds modulo 65536; neither sets a flag beyond what the
//! instruction table defines. Out-of-range memory access, a full or empty
//! call stack, and an undefined opcode pattern are fatal [`Fault`]s that
//! stop the machine with its state otherwise untouched by the faulting
//! instruction.

use vstd::prelude::*;
use crate::arch::{Buzzer, Clock, Display, Keyboard, RandomSource};
use crate::constants::{HEAP_SIZE, LAST_REG, NUM_REGS, PIXELS, RESET_VECTOR, STACK_SIZE, TIMER_HZ};
use crate::mem::{spec_fetch, Heap, Instr, Stack};
use crate::screen::{spec_draw, Screen};

verus! {

/// A fatal fault: emulation stops and nothing is retried.
#[derive(Clone, Copy, PartialEq, Eq, Structural, Debug)]
pub enum Fault {
    /// The fetched word matches no defined opcode.
    InvalidInstruction(u16),
    /// An address or region reached past the end of the heap.
    OutOfBounds,
    /// A call was made with the return-address stack full.
    StackOverflow,
    /// A return was made with the return-address stack empty.
    StackUnderflow,
}

/// The register file: sixteen general 8-bit registers, the 16-bit index
/// register, the program counter, and the two countdown timers.
pub struct Regs {
    /// General registers; `v[15]` is the implicit flags register.
    pub v: Vec<u8>,
    /// The index register, a memory pointer for several opcodes.
    pub i: u16,
    /// The program counter.
    pub pc: u16,
    /// The delay timer, decremented toward zero once per hardware tick.
    pub dt: u8,
    /// The sound timer, decremented toward zero once per hardware tick.
    pub st: u8,
}

impl Regs {
    /// There are always exactly [`NUM_REGS`] general registers.
    pub open spec fn wf(&self) -> bool {
        self.v@.len() == NUM_REGS
    }

    /// The power-on register file: everything zero but the program counter,
    /// which starts at the reset vector.
    pub fn new() -> (r: Regs)
        ensures
            r.wf(),
            forall|k: int| 0 <= k < NUM_REGS ==> r.v@[k] == 0u8,
            r.i == 0,
            r.pc == RESET_VECTOR,
            r.dt == 0,
            r.st == 0,
    {
        let mut v: Vec<u8> = Vec::new();
        let mut k: usize = 0;
        while k < NUM_REGS
            invariant
                k <= NUM_REGS,
                v@.len() == k,
                forall|j: int| 0 <= j < k ==> v@[j] == 0u8,
            decreases NUM_REGS - k,
        {
            v.push(0u8);
            k += 1;
        }
        Regs { v, i: 0, pc: RESET_VECTOR, dt: 0, st: 0 }
    }
}

/// The mathematical state of the machine: every register, the heap, the
/// live entries of the return-address stack (bottom first), and the display
/// bit-plane.
#[verifier::ext_equal]
pub ghost struct State {
    pub v: Seq<u8>,
    pub i: u16,
    pub pc: u16,
    pub dt: u8,
    pub st: u8,
    pub heap: Seq<u8>,
    pub stack: Seq<u16>,
    pub screen: Seq<bool>,
}

impl State {
    /// The fixed shapes of the machine: register count, heap size, stack
    /// capacity and pixel count.
    pub open spec fn wf(self) -> bool {
        &&& self.v.len() == NUM_REGS
        &&& self.heap.len() == HEAP_SIZE
        &&& self.stack.len() <= STACK_SIZE
        &&& self.screen.len() == PIXELS
    }
}

/// The first register selector: bits 8 to 11 of the word.
pub open spec fn op_x(w: u16) -> int {
    (((w >> 8) & 0x0F) as u8) as int
}

/// The second register selector: bits 4 to 7 of the word.
pub open spec fn op_y(w: u16) -> int {
    (((w >> 4) & 0x0F) as u8) as int
}

/// The low nibble: the sprite-height field.
pub open spec fn op_n(w: u16) -> u8 {
    (w & 0x000F) as u8
}

/// The low byte: the immediate operand.
pub open spec fn op_kk(w: u16) -> u8 {
    w as u8
}

/// The low 12 bits: the address field.
pub open spec fn op_addr(w: u16) -> u16 {
    w & 0x0FFF
}

/// 8-bit addition that wraps modulo 256.
pub open spec fn add8_wrap(a: u8, b: u8) -> u8 {
    ((a + b) % 256) as u8
}

/// 8-bit subtraction that wraps modulo 256.
pub open spec fn sub8_wrap(a: u8, b: u8) -> u8 {
    if a >= b {
        (a - b) as u8
    } else {
        (a - b + 256) as u8
    }
}

/// 16-bit addition that wraps modulo 65536.
pub open spec fn add16_wrap(a: u16, b: u16) -> u16 {
    ((a + b) % 0x10000) as u16
}

/// The program counter advanced over one instruction when `cond` holds.
pub open spec fn spec_skip(s: State, cond: bool) -> State {
    if cond {
        State { pc: (s.pc + 2) as u16, ..s }
    } else {
        s
    }
}

/// Both countdown timers decremented toward zero, never below it.
pub open spec fn spec_tick_timers(s: State) -> State {
    State {
        dt: if s.dt != 0 { (s.dt - 1) as u8 } else { 0u8 },
        st: if s.st != 0 { (s.st - 1) as u8 } else { 0u8 },
        ..s
    }
}

/// `heap` with `data` written starting at `a`, everything else unchanged.
pub open spec fn write_seq(heap: Seq<u8>, a: int, data: Seq<u8>) -> Seq<u8> {
    Seq::new(heap.len(), |k: int| if a <= k < a + data.len() { data[k - a] } else { heap[k] })
}

/// The arithmetic/logic family (class `0x8`): the low nibble selects the
/// operation between `V[x]` and `V[y]`. The add form stores the sum first
/// and the carry flag last, so a carry aimed at `V[15]` wins; the subtract
/// and shift forms write the flag first, so a result aimed at `V[15]` wins.
pub open spec fn spec_interpret_alu(s: State, w: u16) -> (State, Option<Fault>) {
    let x = op_x(w);
    let y = op_y(w);
    let n = op_n(w);
    let rx = s.v[x];
    let ry = s.v[y];
    if n == 0x0 {
        (State { v: s.v.update(x, ry), ..s }, None)
    } else if n == 0x1 {
        (State { v: s.v.update(x, rx | ry), ..s }, None)
    } else if n == 0x2 {
        (State { v: s.v.update(x, rx & ry), ..s }, None)
    } else if n == 0x3 {
        (State { v: s.v.update(x, rx ^ ry), ..s }, None)
    } else if n == 0x4 {
        let carry: u8 = if rx + ry > 255 { 1u8 } else { 0u8 };
        (State { v: s.v.update(x, add8_wrap(rx, ry)).update(LAST_REG as int, carry), ..s }, None)
    } else if n == 0x5 {
        let no_borrow: u8 = if rx > ry { 1u8 } else { 0u8 };
        (
            State { v: s.v.update(LAST_REG as int, no_borrow).update(x, sub8_wrap(rx, ry)), ..s },
            None,
        )
    } else if n == 0x6 {
        (State { v: s.v.update(LAST_REG as int, rx & 1).update(x, rx >> 1u8), ..s }, None)
    } else if n == 0x7 {
        let no_borrow: u8 = if ry > rx { 1u8 } else { 0u8 };
        (
            State { v: s.v.update(LAST_REG as int, no_borrow).update(x, sub8_wrap(ry, rx)), ..s },
            None,
        )
    } else if n == 0xE {
        let high: u8 = (rx >> 7u8) as u8;
        (
            State {
                v: s.v.update(LAST_REG as int, high).update(x, ((2 * rx) % 256) as u8),
                ..s
            },
            None,
        )
    } else {
        (s, Some(Fault::InvalidInstruction(w)))
    }
}

/// The draw opcode: XOR a sprite of `n` rows read at the index register
/// onto the bit-plane at `(V[x], V[y])`, and record the collision flag in
/// `V[15]`. Reading past the heap end is a fault.
pub open spec fn spec_interpret_drw(s: State, w: u16) -> (State, Option<Fault>) {
    let x = op_x(w);
    let y = op_y(w);
    let n = op_n(w);
    if s.i + n > HEAP_SIZE {
        (s, Some(Fault::OutOfBounds))
    } else {
        let sprite = s.heap.subrange(s.i as int, s.i + n);
        let (scr, coll) = spec_draw(s.screen, sprite, s.v[x] as int, s.v[y] as int);
        (
            State {
                screen: scr,
                v: s.v.update(LAST_REG as int, if coll { 1u8 } else { 0u8 }),
                ..s
            },
            None,
        )
    }
}

/// The system family (class `0xF`): timers, blocking key input, index
/// arithmetic, the font table, binary-coded decimal, and the register file
/// block transfers. `key` is the key a blocking wait returned.
pub open spec fn spec_interpret_sys(s: State, w: u16, key: u8) -> (State, Option<Fault>) {
    let x = op_x(w);
    let kk = op_kk(w);
    let vx = s.v[x];
    if kk == 0x07 {
        (State { v: s.v.update(x, s.dt), ..s }, None)
    } else if kk == 0x0A {
        (State { v: s.v.update(x, key), ..s }, None)
    } else if kk == 0x15 {
        (State { dt: vx, ..s }, None)
    } else if kk == 0x18 {
        (State { st: vx, ..s }, None)
    } else if kk == 0x1E {
        (State { i: add16_wrap(s.i, vx as u16), ..s }, None)
    } else if kk == 0x29 {
        (State { i: (5 * vx) as u16, ..s }, None)
    } else if kk == 0x33 {
        if s.i + 2 >= HEAP_SIZE {
            (s, Some(Fault::OutOfBounds))
        } else {
            let h = s.heap.update(s.i as int, (vx / 100) as u8).update(
                s.i + 1,
                ((vx / 10) % 10) as u8,
            ).update(s.i + 2, (vx % 10) as u8);
            (State { heap: h, ..s }, None)
        }
    } else if kk == 0x55 {
        if s.i + NUM_REGS > HEAP_SIZE {
            (s, Some(Fault::OutOfBounds))
        } else {
            (State { heap: write_seq(s.heap, s.i as int, s.v), ..s }, None)
        }
    } else if kk == 0x65 {
        if s.i + NUM_REGS > HEAP_SIZE {
            (s, Some(Fault::OutOfBounds))
        } else {
            (State { v: s.heap.subrange(s.i as int, s.i + NUM_REGS), ..s }, None)
        }
    } else {
        (s, Some(Fault::InvalidInstruction(w)))
    }
}

/// The full opcode semantics: the machine state after interpreting word `w`
/// in state `s`, and the fault if the word defines none. A faulting
/// instruction leaves the state unchanged. `rnd` is the byte the random
/// source produced, `pressed` what the keyboard reported for the selected
/// key, and `key` what a blocking wait returned; an instruction that
/// consults none of them ignores them.
pub open spec fn spec_interpret(s: State, w: u16, rnd: u8, pressed: bool, key: u8) -> (
    State,
    Option<Fault>,
) {
    let x = op_x(w);
    let y = op_y(w);
    let n = op_n(w);
    let kk = op_kk(w);
    let nnn = op_addr(w);
    let c = w & 0xF000;
    if c == 0x0000 {
        if w == 0x00E0 {
            (State { screen: Seq::new(PIXELS as nat, |k: int| false), ..s }, None)
        } else if w == 0x00EE {
            if s.stack.len() == 0 {
                (s, Some(Fault::StackUnderflow))
            } else {
                (State { pc: s.stack.last(), stack: s.stack.drop_last(), ..s }, None)
            }
        } else {
            (s, None)
        }
    } else if c == 0x1000 {
        (State { pc: nnn, ..s }, None)
    } else if c == 0x2000 {
        if s.stack.len() >= STACK_SIZE {
            (s, Some(Fault::StackOverflow))
        } else {
            (State { stack: s.stack.push(s.pc), pc: nnn, ..s }, None)
        }
    } else if c == 0x3000 {
        (spec_skip(s, s.v[x] == kk), None)
    } else if c == 0x4000 {
        (spec_skip(s, s.v[x] != kk), None)
    } else if c == 0x5000 {
        if n == 0 {
            (spec_skip(s, s.v[x] == s.v[y]), None)
        } else {
            (s, Some(Fault::InvalidInstruction(w)))
        }
    } else if c == 0x6000 {
        (State { v: s.v.update(x, kk), ..s }, None)
    } else if c == 0x7000 {
        (State { v: s.v.update(x, add8_wrap(s.v[x], kk)), ..s }, None)
    } else if c == 0x8000 {
        spec_interpret_alu(s, w)
    } else if c == 0x9000 {
        if n == 0 {
            (spec_skip(s, s.v[x] != s.v[y]), None)
        } else {
            (s, Some(Fault::InvalidInstruction(w)))
        }
    } else if c == 0xA000 {
        (State { i: nnn, ..s }, None)
    } else if c == 0xB000 {
        (State { pc: (s.v[0] + nnn) as u16, ..s }, None)
    } else if c == 0xC000 {
        (State { v: s.v.update(x, rnd & kk), ..s }, None)
    } else if c == 0xD000 {
        spec_interpret_drw(s, w)
    } else if c == 0xE000 {
        if kk == 0x9E {
            (spec_skip(s, pressed), None)
        } else if kk == 0xA1 {
            (spec_skip(s, !pressed), None)
        } else {
            (s, Some(Fault::InvalidInstruction(w)))
        }
    } else if c == 0xF000 {
        spec_interpret_sys(s, w, key)
    } else {
        (s, Some(Fault::InvalidInstruction(w)))
    }
}

/// One whole cycle: every `m`-th cycle both timers tick; then the word at
/// the program counter is fetched (a fault if the counter has run past the
/// heap end), the counter advances over it, and the word is interpreted.
pub open spec fn spec_step(
    s: State,
    cycles: u64,
    m: u64,
    rnd: u8,
    pressed: bool,
    key: u8,
) -> (State, Option<Fault>)
    recommends
        m >= 1,
{
    let s0 = if cycles % m == 0 { spec_tick_timers(s) } else { s };
    if s0.pc + 1 >= HEAP_SIZE {
        (s0, Some(Fault::OutOfBounds))
    } else {
        let w = spec_fetch(s0.heap, s0.pc as int);
        spec_interpret(State { pc: (s0.pc + 2) as u16, ..s0 }, w, rnd, pressed, key)
    }
}

/// The fault an execution result carries, if any.
pub open spec fn fault_of(r: Result<(), Fault>) -> Option<Fault> {
    match r {
        Ok(()) => None,
        Err(e) => Some(e),
    }
}

/// What interpreting one word did: the new state and the outcome agree with
/// [`spec_interpret`] under the given device readings.
pub open spec fn interp_post(
    pre: State,
    w: u16,
    post: State,
    r: Result<(), Fault>,
    rnd: u8,
    pressed: bool,
    key: u8,
) -> bool {
    let (s2, f) = spec_interpret(pre, w, rnd, pressed, key);
    post == s2 && f == fault_of(r)
}

/// What one cycle did: the new state and the outcome agree with
/// [`spec_step`] under the given device readings.
pub open spec fn step_post(
    pre: State,
    cycles: u64,
    m: u64,
    post: State,
    r: Result<(), Fault>,
    rnd: u8,
    pressed: bool,
    key: u8,
) -> bool {
    let (s2, f) = spec_step(pre, cycles, m, rnd, pressed, key);
    post == s2 && f == fault_of(r)
}

/// 64-bit addition that saturates at the maximum.
pub open spec fn sat_add64(a: u64, b: u64) -> u64 {
    if a + b > u64::MAX {
        u64::MAX
    } else {
        (a + b) as u64
    }
}

/// One paced cycle of the run loop: some device readings let [`spec_step`]
/// succeed, the cycle counter advances (wrapping), and the next-cycle
/// deadline moves up by at least the fixed cycle time (more when the cycle
/// blocked for a key), saturating.
pub open spec fn spec_cycle_transition(
    s: State,
    c: u64,
    d: u64,
    m: u64,
    ct: u64,
    s2: State,
    c2: u64,
    d2: u64,
) -> bool {
    &&& exists|rnd: u8, pressed: bool, key: u8|
        #[trigger] spec_step(s, c, m, rnd, pressed, key) == (s2, None::<Fault>)
    &&& c2 == (if c == u64::MAX {
        0u64
    } else {
        (c + 1) as u64
    })
    &&& d2 >= sat_add64(d, ct)
}

/// A full reset consumed from the reset signal: the machine returns to the
/// reset state with the cycle counter cleared; the pacing baseline becomes
/// whatever instant the clock then reports.
pub open spec fn spec_reset_transition(rom: Seq<u8>, s2: State, c2: u64) -> bool {
    s2 == spec_reset_state(rom) && c2 == 0
}

/// One transition of the pacing loop between two trace entries, each entry
/// a machine state, cycle count and pacing deadline: either one paced cycle
/// or one signal-triggered full reset.
pub open spec fn run_trace_link(
    a: (State, u64, u64),
    b: (State, u64, u64),
    m: u64,
    ct: u64,
    rom: Seq<u8>,
) -> bool {
    spec_cycle_transition(a.0, a.1, a.2, m, ct, b.0, b.1, b.2) || spec_reset_transition(
        rom,
        b.0,
        b.1,
    )
}

/// A pacing-loop trace: every pair of consecutive entries is joined by one
/// paced cycle or one signal-triggered full reset.
pub open spec fn is_run_trace(tr: Seq<(State, u64, u64)>, m: u64, ct: u64, rom: Seq<u8>) -> bool {
    forall|i: int|
        0 <= i < tr.len() - 1 ==> #[trigger] run_trace_link(tr[i], tr[i + 1], m, ct, rom)
}

/// Whether the run loop can take one machine state, cycle count and pacing
/// deadline to another by paced cycles and signal-triggered resets alone.
pub open spec fn reaches(
    s: State,
    c: u64,
    d: u64,
    m: u64,
    ct: u64,
    rom: Seq<u8>,
    s2: State,
    c2: u64,
    d2: u64,
) -> bool {
    exists|tr: Seq<(State, u64, u64)>|
        #[trigger] is_run_trace(tr, m, ct, rom) && tr.len() >= 1 && tr.first() == (s, c, d)
            && tr.last() == (s2, c2, d2)
}

/// A run that ended in a fault: from the starting point the loop reached
/// some state, and one more cycle from there faulted, leaving the machine
/// at the fault's own state.
pub open spec fn spec_faulted_run(
    s0: State,
    c0: u64,
    d0: u64,
    m: u64,
    ct: u64,
    rom: Seq<u8>,
    s1: State,
    c1: u64,
    d1: u64,
    rnd: u8,
    pressed: bool,
    key: u8,
    s2: State,
    f: Option<Fault>,
) -> bool {
    reaches(s0, c0, d0, m, ct, rom, s1, c1, d1) && spec_step(s1, c1, m, rnd, pressed, key) == (
        s2,
        f,
    )
}

proof fn lemma_reaches_here(s: State, c: u64, d: u64, m: u64, ct: u64, rom: Seq<u8>)
    ensures
        reaches(s, c, d, m, ct, rom, s, c, d),
{
    let tr = seq![(s, c, d)];
    assert(is_run_trace(tr, m, ct, rom));
    assert(tr.first() == (s, c, d) && tr.last() == (s, c, d));
}

proof fn lemma_reaches_extend(
    s: State,
    c: u64,
    d: u64,
    m: u64,
    ct: u64,
    rom: Seq<u8>,
    s1: State,
    c1: u64,
    d1: u64,
    s2: State,
    c2: u64,
    d2: u64,
)
    requires
        reaches(s, c, d, m, ct, rom, s1, c1, d1),
        spec_cycle_transition(s1, c1, d1, m, ct, s2, c2, d2) || spec_reset_transition(rom, s2, c2),
    ensures
        reaches(s, c, d, m, ct, rom, s2, c2, d2),
{
    let tr = choose|tr: Seq<(State, u64, u64)>|
        #[trigger] is_run_trace(tr, m, ct, rom) && tr.len() >= 1 && tr.first() == (s, c, d)
            && tr.last() == (s1, c1, d1);
    let tr2 = tr.push((s2, c2, d2));
    assert forall|i: int| 0 <= i < tr2.len() - 1 implies #[trigger] run_trace_link(
        tr2[i],
        tr2[i + 1],
        m,
        ct,
        rom,
    ) by {
        if i < tr.len() - 1 {
            assert(tr2[i] == tr[i] && tr2[i + 1] == tr[i + 1]);
            assert(run_trace_link(tr[i], tr[i + 1], m, ct, rom));
        } else {
            assert(tr2[i] == tr.last() && tr2[i + 1] == (s2, c2, d2));
        }
    }
    assert(is_run_trace(tr2, m, ct, rom));
    assert(tr2.first() == (s, c, d) && tr2.last() == (s2, c2, d2));
}

/// The built-in font: sprite glyphs for the hex digits 0 to F, five bytes
/// each, loaded at address 0 on every reset.
pub open spec fn spec_font() -> Seq<u8> {
    seq![
        0xF0u8, 0x90, 0x90, 0x90, 0xF0, // 0
        0x20, 0x60, 0x20, 0x20, 0x70, // 1
        0xF0, 0x10, 0xF0, 0x80, 0xF0, // 2
        0xF0, 0x10, 0xF0, 0x10, 0xF0, // 3
        0x90, 0x90, 0xF0, 0x10, 0x10, // 4
        0xF0, 0x80, 0xF0, 0x10, 0xF0, // 5
        0xF0, 0x80, 0xF0, 0x90, 0xF0, // 6
        0xF0, 0x10, 0x20, 0x40, 0x40, // 7
        0xF0, 0x90, 0xF0, 0x90, 0xF0, // 8
        0xF0, 0x90, 0xF0, 0x10, 0xF0, // 9
        0xF0, 0x90, 0xF0, 0x90, 0x90, // A
        0xE0, 0x90, 0xE0, 0x90, 0xE0, // B
        0xF0, 0x80, 0x80, 0x80, 0xF0, // C
        0xE0, 0x90, 0x90, 0x90, 0xE0, // D
        0xF0, 0x80, 0xF0, 0x80, 0xF0, // E
        0xF0, 0x80, 0xF0, 0x80, 0x80, // F
    ]
}

/// The state after a full reset with `rom` loaded: registers zeroed, the
/// program counter at the reset vector, stack emptied, display cleared, and
/// the heap zeroed then repopulated with the font at address 0 and the ROM
/// at the reset vector.
pub open spec fn spec_reset_state(rom: Seq<u8>) -> State {
    State {
        v: Seq::new(NUM_REGS as nat, |k: int| 0u8),
        i: 0,
        pc: RESET_VECTOR,
        dt: 0,
        st: 0,
        heap: write_seq(
            write_seq(Seq::new(HEAP_SIZE as nat, |k: int| 0u8), 0, spec_font()),
            RESET_VECTOR as int,
            rom,
        ),
        stack: Seq::<u16>::empty(),
        screen: Seq::new(PIXELS as nat, |k: int| false),
    }
}

} // verus!

verus! {

/// The machine state at power-on, before any ROM is loaded: all zero but
/// the program counter, which starts at the reset vector.
pub open spec fn spec_power_on_state() -> State {
    State {
        v: Seq::new(NUM_REGS as nat, |k: int| 0u8),
        i: 0,
        pc: RESET_VECTOR,
        dt: 0,
        st: 0,
        heap: Seq::new(HEAP_SIZE as nat, |k: int| 0u8),
        stack: Seq::<u16>::empty(),
        screen: Seq::new(PIXELS as nat, |k: int| false),
    }
}

/// How long until a deadline, or zero once it has passed; the measure that
/// shrinks while the pacing loop waits.
pub open spec fn time_to_deadline(now: u64, deadline: u64) -> int {
    if now < deadline {
        deadline - now
    } else {
        0
    }
}

/// The font glyph bytes as a vector, for loading into the heap on reset.
fn font_data() -> (r: Vec<u8>)
    ensures
        r@ == spec_font(),
{
    let font: Vec<u8> = vec![
        0xF0u8, 0x90, 0x90, 0x90, 0xF0, 0x20, 0x60, 0x20, 0x20, 0x70, 0xF0, 0x10, 0xF0, 0x80,
        0xF0, 0xF0, 0x10, 0xF0, 0x10, 0xF0, 0x90, 0x90, 0xF0, 0x10, 0x10, 0xF0, 0x80, 0xF0,
        0x10, 0xF0, 0xF0, 0x80, 0xF0, 0x90, 0xF0, 0xF0, 0x10, 0x20, 0x40, 0x40, 0xF0, 0x90,
        0xF0, 0x90, 0xF0, 0xF0, 0x90, 0xF0, 0x10, 0xF0, 0xF0, 0x90, 0xF0, 0x90, 0x90, 0xE0,
        0x90, 0xE0, 0x90, 0xE0, 0xF0, 0x80, 0x80, 0x80, 0xF0, 0xE0, 0x90, 0x90, 0x90, 0xE0,
        0xF0, 0x80, 0xF0, 0x80, 0xF0, 0xF0, 0x80, 0xF0, 0x80, 0x80,
    ];
    proof {
        assert(font@ =~= spec_font());
    }
    font
}

/// The execution engine: it owns the register file, heap, stack and display
/// bit-plane, holds the externally supplied device capabilities, and runs
/// the fetch-decode-execute loop under real-time pacing.
pub struct CPU<'t, D: Display, K: Keyboard, B: Buzzer, C: Clock, R: RandomSource> {
    display: D,
    keyboard: K,
    buzzer: B,
    clock: C,
    rng: R,
    clock_multiplier: u64,
    cycle_time_nanos: u64,
    cycle_sleep_millis: u64,
    next_cycle_deadline: u64,
    cycles: u64,
    regs: Regs,
    heap: Heap,
    stack: Stack,
    screen: Screen,
    rom: Option<&'t [u8]>,
}

/// A fresh engine with no ROM loaded. The clock multiplier sets how many
/// cycles run per hardware tick, so the cycle rate is the multiplier times
/// the fixed timer rate.
pub fn new<'t, D: Display, K: Keyboard, B: Buzzer, C: Clock, R: RandomSource>(
    display: D,
    keyboard: K,
    buzzer: B,
    clock: C,
    rng: R,
    clock_multiplier: u64,
) -> (cpu: CPU<'t, D, K, B, C, R>)
    requires
        1 <= clock_multiplier,
        clock_multiplier * TIMER_HZ <= u64::MAX,
    ensures
        cpu.wf(),
        cpu.state() == spec_power_on_state(),
        cpu.spec_rom() == Seq::<u8>::empty(),
        cpu.spec_cycles() == 0,
        cpu.spec_multiplier() == clock_multiplier,
        cpu.spec_cycle_time() as int == 1_000_000_000int / (clock_multiplier * TIMER_HZ),
        cpu.spec_sleep_millis() as int == ({
            let ms = 1_000_000_000int / (clock_multiplier * TIMER_HZ) / 1_000_000;
            if ms == 0 {
                1int
            } else {
                ms
            }
        }),
{
    let cycles_per_second = clock_multiplier * TIMER_HZ;
    let cycle_time_nanos = 1_000_000_000u64 / cycles_per_second;
    let ms = cycle_time_nanos / 1_000_000;
    let cycle_sleep_millis = if ms == 0 { 1 } else { ms };
    let cpu = CPU {
        display,
        keyboard,
        buzzer,
        clock,
        rng,
        clock_multiplier,
        cycle_time_nanos,
        cycle_sleep_millis,
        next_cycle_deadline: 0,
        cycles: 0,
        regs: Regs::new(),
        heap: Heap::new(),
        stack: Stack::new(),
        screen: Screen::new(),
        rom: None,
    };
    proof {
        assert(cpu.state() =~= spec_power_on_state());
    }
    cpu
}

impl<'t, D: Display, K: Keyboard, B: Buzzer, C: Clock, R: RandomSource> CPU<'t, D, K, B, C, R> {
    /// The machine state: registers, timers, heap, stack and bit-plane.
    pub closed spec fn state(&self) -> State {
        State {
            v: self.regs.v@,
            i: self.regs.i,
            pc: self.regs.pc,
            dt: self.regs.dt,
            st: self.regs.st,
            heap: self.heap@,
            stack: self.stack@,
            screen: self.screen@,
        }
    }

    /// The loaded ROM bytes, empty before any load.
    pub closed spec fn spec_rom(&self) -> Seq<u8> {
        match self.rom {
            Some(r) => r@,
            None => Seq::<u8>::empty(),
        }
    }

    /// How many cycles have run since the last reset.
    pub closed spec fn spec_cycles(&self) -> u64 {
        self.cycles
    }

    /// The clock multiplier: cycles per hardware tick.
    pub closed spec fn spec_multiplier(&self) -> u64 {
        self.clock_multiplier
    }

    /// The fixed duration of one cycle, in nanoseconds.
    pub closed spec fn spec_cycle_time(&self) -> u64 {
        self.cycle_time_nanos
    }

    /// The pacing sleep between cycles, in milliseconds, at least one.
    pub closed spec fn spec_sleep_millis(&self) -> u64 {
        self.cycle_sleep_millis
    }

    /// The absolute time of the next cycle.
    pub closed spec fn spec_deadline(&self) -> u64 {
        self.next_cycle_deadline
    }

    /// The engine's fixed shapes and parameters: well-formed register file,
    /// heap, stack and bit-plane, a positive clock multiplier, and a ROM
    /// that fits between the reset vector and the heap end.
    pub closed spec fn wf(&self) -> bool {
        &&& self.regs.wf()
        &&& self.heap.wf()
        &&& self.stack.wf()
        &&& self.screen.wf()
        &&& self.clock_multiplier >= 1
        &&& self.spec_rom().len() + RESET_VECTOR <= HEAP_SIZE
    }

    /// Whether the pacing parameters are unchanged between two engines.
    pub closed spec fn same_timing(&self, other: &Self) -> bool {
        &&& self.clock_multiplier == other.clock_multiplier
        &&& self.cycle_time_nanos == other.cycle_time_nanos
        &&& self.cycle_sleep_millis == other.cycle_sleep_millis
    }

    /// Whether pacing parameters and the loaded ROM are both unchanged.
    pub closed spec fn same_config(&self, other: &Self) -> bool {
        &&& self.same_timing(other)
        &&& self.spec_rom() == other.spec_rom()
    }

    /// Capture the ROM and perform a full reset; the machine then starts
    /// from the reset vector. The caller guarantees the ROM fits below the
    /// heap end.
    pub fn load(&mut self, rom: &'t [u8])
        requires
            old(self).wf(),
            RESET_VECTOR + rom@.len() <= HEAP_SIZE,
        ensures
            final(self).wf(),
            final(self).same_timing(old(self)),
            final(self).spec_rom() == rom@,
            final(self).state() == spec_reset_state(rom@),
            final(self).spec_cycles() == 0,
            final(self).spec_deadline() == 0,
    {
        self.rom = Some(rom);
        self.reset()
    }

    /// Full reset: registers zeroed, program counter at the reset vector,
    /// stack and display cleared, heap zeroed then repopulated with font
    /// and ROM, all devices told to reset, and the cycle counter and the
    /// pacing baseline zeroed.
    pub fn reset(&mut self)
        requires
            old(self).wf(),
        ensures
            final(self).wf(),
            final(self).same_config(old(self)),
            final(self).state() == spec_reset_state(old(self).spec_rom()),
            final(self).spec_cycles() == 0,
            final(self).spec_deadline() == 0,
    {
        self.regs = Regs::new();
        self.cycles = 0;
        self.next_cycle_deadline = 0;
        self.heap.reset();
        self.stack.reset();
        self.screen.clear();
        self.display.reset();
        self.keyboard.reset();
        self.buzzer.reset();
        let font = font_data();
        self.heap.write_bytes(0, font.as_slice());
        let rom = self.rom;
        match rom {
            Some(bytes) => {
                self.heap.write_bytes(RESET_VECTOR, bytes);
            },
            None => {},
        }
        proof {
            assert(self.state().heap =~= spec_reset_state(old(self).spec_rom()).heap);
            assert(self.state().v =~= spec_reset_state(old(self).spec_rom()).v);
            assert(self.state().screen =~= spec_reset_state(old(self).spec_rom()).screen);
            assert(self.state() =~= spec_reset_state(old(self).spec_rom()));
        }
    }
}

} // verus!

verus! {

/// Fill the register file from the heap block starting at `i0`, as the
/// register-load opcode does.
fn load_regs(v: &mut Vec<u8>, heap: &Heap, i0: u16)
    requires
        old(v)@.len() == NUM_REGS,
        heap.wf(),
        i0 + NUM_REGS <= HEAP_SIZE,
    ensures
        final(v)@ == heap@.subrange(i0 as int, i0 + NUM_REGS),
{
    let mut k: usize = 0;
    while k < NUM_REGS
        invariant
            k <= NUM_REGS,
            v@.len() == NUM_REGS,
            heap.wf(),
            i0 + NUM_REGS <= HEAP_SIZE,
            forall|j: int| 0 <= j < k ==> v@[j] == heap@[i0 + j],
        decreases NUM_REGS - k,
    {
        let b = heap.read_byte(i0 + k as u16);
        v[k] = b;
        k += 1;
    }
    assert(v@ =~= heap@.subrange(i0 as int, i0 + NUM_REGS));
}

impl<'t, D: Display, K: Keyboard, B: Buzzer, C: Clock, R: RandomSource> CPU<'t, D, K, B, C, R> {
    /// Advance the program counter over the next instruction when `skip`
    /// holds, as the conditional-skip opcodes do.
    fn skip_if(&mut self, skip: bool)
        requires
            old(self).wf(),
            old(self).state().pc + 2 <= u16::MAX,
        ensures
            final(self).wf(),
            final(self).same_config(old(self)),
            final(self).spec_cycles() == old(self).spec_cycles(),
            final(self).spec_deadline() == old(self).spec_deadline(),
            final(self).state() == spec_skip(old(self).state(), skip),
    {
        if skip {
            self.regs.pc = self.regs.pc + 2;
        }
    }

    /// Add `V[y]` into `V[x]` wrapping modulo 256, then record the carry in
    /// the flags register (a carry aimed at `V[15]` wins).
    fn add(&mut self, x: u8, y: u8)
        requires
            old(self).wf(),
            x < 16,
            y < 16,
        ensures
            final(self).wf(),
            final(self).same_config(old(self)),
            final(self).spec_cycles() == old(self).spec_cycles(),
            final(self).spec_deadline() == old(self).spec_deadline(),
            final(self).state() == ({
                let s = old(self).state();
                let carry: u8 = if s.v[x as int] + s.v[y as int] > 255 { 1u8 } else { 0u8 };
                State {
                    v: s.v.update(x as int, add8_wrap(s.v[x as int], s.v[y as int])).update(
                        LAST_REG as int,
                        carry,
                    ),
                    ..s
                }
            }),
    {
        let rx = self.regs.v[x as usize];
        let ry = self.regs.v[y as usize];
        let sum = rx as u16 + ry as u16;
        let carry: u8 = if sum > 255 { 1 } else { 0 };
        self.regs.v[x as usize] = (sum % 256) as u8;
        self.regs.v[LAST_REG] = carry;
    }

    /// Store `V[x] - V[y]` into `V[r]`, wrapping modulo 256 when the
    /// subtrahend is larger; the flags register first records whether the
    /// minuend was strictly larger (no borrow).
    fn sub(&mut self, r: u8, x: u8, y: u8)
        requires
            old(self).wf(),
            r < 16,
            x < 16,
            y < 16,
        ensures
            final(self).wf(),
            final(self).same_config(old(self)),
            final(self).spec_cycles() == old(self).spec_cycles(),
            final(self).spec_deadline() == old(self).spec_deadline(),
            final(self).state() == ({
                let s = old(self).state();
                let no_borrow: u8 = if s.v[x as int] > s.v[y as int] { 1u8 } else { 0u8 };
                State {
                    v: s.v.update(LAST_REG as int, no_borrow).update(
                        r as int,
                        sub8_wrap(s.v[x as int], s.v[y as int]),
                    ),
                    ..s
                }
            }),
    {
        let rx = self.regs.v[x as usize];
        let ry = self.regs.v[y as usize];
        self.regs.v[LAST_REG] = if rx > ry { 1 } else { 0 };
        self.regs.v[r as usize] = if rx >= ry { rx - ry } else { 255 - (ry - rx) + 1 };
    }

    /// Shift `V[x]` right one bit, recording the shifted-out bit in the
    /// flags register first.
    fn shr(&mut self, x: u8)
        requires
            old(self).wf(),
            x < 16,
        ensures
            final(self).wf(),
            final(self).same_config(old(self)),
            final(self).spec_cycles() == old(self).spec_cycles(),
            final(self).spec_deadline() == old(self).spec_deadline(),
            final(self).state() == ({
                let s = old(self).state();
                State {
                    v: s.v.update(LAST_REG as int, s.v[x as int] & 1).update(
                        x as int,
                        s.v[x as int] >> 1u8,
                    ),
                    ..s
                }
            }),
    {
        let rx = self.regs.v[x as usize];
        self.regs.v[LAST_REG] = rx & 1;
        self.regs.v[x as usize] = rx >> 1u8;
    }

    /// Shift `V[x]` left one bit wrapping modulo 256, recording the
    /// shifted-out bit in the flags register first.
    fn shl(&mut self, x: u8)
        requires
            old(self).wf(),
            x < 16,
        ensures
            final(self).wf(),
            final(self).same_config(old(self)),
            final(self).spec_cycles() == old(self).spec_cycles(),
            final(self).spec_deadline() == old(self).spec_deadline(),
            final(self).state() == ({
                let s = old(self).state();
                State {
                    v: s.v.update(LAST_REG as int, (s.v[x as int] >> 7u8) as u8).update(
                        x as int,
                        ((2 * s.v[x as int]) % 256) as u8,
                    ),
                    ..s
                }
            }),
    {
        let rx = self.regs.v[x as usize];
        self.regs.v[LAST_REG] = rx >> 7u8;
        self.regs.v[x as usize] = ((2 * (rx as u16)) % 256) as u8;
    }

    /// Push the program counter and jump to `addr`, as the call opcode
    /// does. The caller guarantees room on the stack.
    fn call(&mut self, addr: u16)
        requires
            old(self).wf(),
            old(self).state().stack.len() < STACK_SIZE,
        ensures
            final(self).wf(),
            final(self).same_config(old(self)),
            final(self).spec_cycles() == old(self).spec_cycles(),
            final(self).spec_deadline() == old(self).spec_deadline(),
            final(self).state() == ({
                let s = old(self).state();
                State { stack: s.stack.push(s.pc), pc: addr, ..s }
            }),
    {
        self.stack.push(self.regs.pc);
        self.regs.pc = addr;
    }

    /// Write the decimal digits of `V[x]` (hundreds, tens, units) at the
    /// index register. The caller guarantees the three bytes fit.
    fn bcd(&mut self, x: u8)
        requires
            old(self).wf(),
            x < 16,
            old(self).state().i + 2 < HEAP_SIZE,
        ensures
            final(self).wf(),
            final(self).same_config(old(self)),
            final(self).spec_cycles() == old(self).spec_cycles(),
            final(self).spec_deadline() == old(self).spec_deadline(),
            final(self).state() == ({
                let s = old(self).state();
                let vx = s.v[x as int];
                State {
                    heap: s.heap.update(s.i as int, (vx / 100) as u8).update(
                        s.i + 1,
                        ((vx / 10) % 10) as u8,
                    ).update(s.i + 2, (vx % 10) as u8),
                    ..s
                }
            }),
    {
        let vx = self.regs.v[x as usize];
        let i0 = self.regs.i;
        self.heap.write_byte(i0, vx / 100);
        self.heap.write_byte(i0 + 1, (vx / 10) % 10);
        self.heap.write_byte(i0 + 2, vx % 10);
    }

    /// Draw a sprite of `nibble` rows read at the index register onto the
    /// bit-plane at `(V[x], V[y])`, record the collision flag, and refresh
    /// the display.
    fn drw(&mut self, nibble: u8, x: u8, y: u8)
        requires
            old(self).wf(),
            x < 16,
            y < 16,
            nibble < 16,
            old(self).state().i + nibble <= HEAP_SIZE,
        ensures
            final(self).wf(),
            final(self).same_config(old(self)),
            final(self).spec_cycles() == old(self).spec_cycles(),
            final(self).spec_deadline() == old(self).spec_deadline(),
            final(self).state() == ({
                let s = old(self).state();
                let sprite = s.heap.subrange(s.i as int, s.i + nibble);
                let res = spec_draw(s.screen, sprite, s.v[x as int] as int, s.v[y as int] as int);
                State {
                    screen: res.0,
                    v: s.v.update(LAST_REG as int, if res.1 { 1u8 } else { 0u8 }),
                    ..s
                }
            }),
    {
        let vx = self.regs.v[x as usize];
        let vy = self.regs.v[y as usize];
        let collision = {
            let sprite = self.heap.read_sprite(self.regs.i, nibble);
            self.screen.draw(&sprite, vx, vy)
        };
        self.regs.v[LAST_REG] = if collision {
            1
        } else {
            0
        };
        self.display.present(&self.screen);
    }

    /// Block until the keyboard reports a key, extending the pacing
    /// deadline by the elapsed wait so the wait does not count against
    /// cycle pacing. The machine state is untouched.
    fn wait_for_key(&mut self) -> (key: u8)
        requires
            old(self).wf(),
        ensures
            final(self).wf(),
            final(self).same_config(old(self)),
            final(self).spec_cycles() == old(self).spec_cycles(),
            final(self).spec_deadline() >= old(self).spec_deadline(),
            final(self).state() == old(self).state(),
            key < 16,
    {
        let t0 = self.clock.now();
        let key = self.keyboard.wait_key();
        let t1 = self.clock.now();
        let elapsed = if t1 >= t0 {
            t1 - t0
        } else {
            0
        };
        self.next_cycle_deadline = if self.next_cycle_deadline <= u64::MAX - elapsed {
            self.next_cycle_deadline + elapsed
        } else {
            u64::MAX
        };
        key
    }

    /// Start a tone when the sound timer is written from zero to nonzero,
    /// then store `V[x]` into the sound timer.
    fn ldst(&mut self, x: u8)
        requires
            old(self).wf(),
            x < 16,
        ensures
            final(self).wf(),
            final(self).same_config(old(self)),
            final(self).spec_cycles() == old(self).spec_cycles(),
            final(self).spec_deadline() == old(self).spec_deadline(),
            final(self).state() == ({
                let s = old(self).state();
                State { st: s.v[x as int], ..s }
            }),
    {
        let val = self.regs.v[x as usize];
        if self.regs.st == 0 && val > 0 {
            self.buzzer.start();
        }
        self.regs.st = val;
    }

    /// The invalid-instruction fault for `instruction`.
    fn invalid_instruction(&self, instruction: Instr) -> (r: Result<(), Fault>)
        ensures
            r == Err::<(), Fault>(Fault::InvalidInstruction(instruction.word())),
    {
        Err(Fault::InvalidInstruction(instruction.instr()))
    }
}

} // verus!

verus! {

impl<'t, D: Display, K: Keyboard, B: Buzzer, C: Clock, R: RandomSource> CPU<'t, D, K, B, C, R> {
    /// Second-level dispatch for the arithmetic/logic family (class `0x8`),
    /// selected by the low nibble.
    fn interpret_0x8xxx(&mut self, instruction: Instr) -> (r: Result<(), Fault>)
        requires
            old(self).wf(),
            instruction.word() & 0xF000 == 0x8000,
        ensures
            final(self).wf(),
            final(self).same_config(old(self)),
            final(self).spec_cycles() == old(self).spec_cycles(),
            final(self).spec_deadline() == old(self).spec_deadline(),
            (final(self).state(), fault_of(r)) == spec_interpret(
                old(self).state(),
                instruction.word(),
                0,
                false,
                0,
            ),
    {
        let w = instruction.instr();
        let x = instruction.x();
        let y = instruction.y();
        let ghost pre = old(self).state();
        proof {
            assert(w & 0x000F < 16) by (bit_vector);
        }
        match w & 0x000F {
            0x0 => {
                let ry = self.regs.v[y as usize];
                self.regs.v[x as usize] = ry;
                proof {
                    assert(self.state() =~= spec_interpret_alu(pre, w).0);
                }
                Ok(())
            },
            0x1 => {
                let rx = self.regs.v[x as usize];
                let ry = self.regs.v[y as usize];
                self.regs.v[x as usize] = rx | ry;
                proof {
                    assert(self.state() =~= spec_interpret_alu(pre, w).0);
                }
                Ok(())
            },
            0x2 => {
                let rx = self.regs.v[x as usize];
                let ry = self.regs.v[y as usize];
                self.regs.v[x as usize] = rx & ry;
                proof {
                    assert(self.state() =~= spec_interpret_alu(pre, w).0);
                }
                Ok(())
            },
            0x3 => {
                let rx = self.regs.v[x as usize];
                let ry = self.regs.v[y as usize];
                self.regs.v[x as usize] = rx ^ ry;
                proof {
                    assert(self.state() =~= spec_interpret_alu(pre, w).0);
                }
                Ok(())
            },
            0x4 => {
                self.add(x, y);
                proof {
                    assert(self.state() =~= spec_interpret_alu(pre, w).0);
                }
                Ok(())
            },
            0x5 => {
                self.sub(x, x, y);
                proof {
                    assert(self.state() =~= spec_interpret_alu(pre, w).0);
                }
                Ok(())
            },
            0x6 => {
                self.shr(x);
                proof {
                    assert(self.state() =~= spec_interpret_alu(pre, w).0);
                }
                Ok(())
            },
            0x7 => {
                self.sub(x, y, x);
                proof {
                    assert(self.state() =~= spec_interpret_alu(pre, w).0);
                }
                Ok(())
            },
            0xE => {
                self.shl(x);
                proof {
                    assert(self.state() =~= spec_interpret_alu(pre, w).0);
                }
                Ok(())
            },
            _ => self.invalid_instruction(instruction),
        }
    }

    /// Second-level dispatch for the system family (class `0xF`), selected
    /// by the low byte.
    fn interpret_0xfxxx(&mut self, instruction: Instr) -> (r: Result<(), Fault>)
        requires
            old(self).wf(),
            instruction.word() & 0xF000 == 0xF000,
        ensures
            final(self).wf(),
            final(self).same_config(old(self)),
            final(self).spec_cycles() == old(self).spec_cycles(),
            final(self).spec_deadline() >= old(self).spec_deadline(),
            exists|key: u8|
                interp_post(
                    old(self).state(),
                    instruction.word(),
                    final(self).state(),
                    r,
                    0,
                    false,
                    key,
                ),
    {
        let w = instruction.instr();
        let x = instruction.x();
        let ghost pre = old(self).state();
        proof {
            assert(w as u8 == (w & 0x00FF) as u8 && (w & 0x00FF) < 256) by (bit_vector);
        }
        match w & 0x00FF {
            0x07 => {
                let dt = self.regs.dt;
                self.regs.v[x as usize] = dt;
                proof {
                    assert(self.state() =~= spec_interpret_sys(pre, w, 0).0);
                    assert(interp_post(pre, w, self.state(), Ok(()), 0, false, 0));
                }
                Ok(())
            },
            0x0A => {
                let key = self.wait_for_key();
                self.regs.v[x as usize] = key;
                proof {
                    assert(self.state() =~= spec_interpret_sys(pre, w, key).0);
                    assert(interp_post(pre, w, self.state(), Ok(()), 0, false, key));
                }
                Ok(())
            },
            0x15 => {
                self.regs.dt = self.regs.v[x as usize];
                proof {
                    assert(self.state() =~= spec_interpret_sys(pre, w, 0).0);
                    assert(interp_post(pre, w, self.state(), Ok(()), 0, false, 0));
                }
                Ok(())
            },
            0x18 => {
                self.ldst(x);
                proof {
                    assert(self.state() =~= spec_interpret_sys(pre, w, 0).0);
                    assert(interp_post(pre, w, self.state(), Ok(()), 0, false, 0));
                }
                Ok(())
            },
            0x1E => {
                let vx = self.regs.v[x as usize];
                self.regs.i = ((self.regs.i as u32 + vx as u32) % 0x10000) as u16;
                proof {
                    assert(self.state() =~= spec_interpret_sys(pre, w, 0).0);
                    assert(interp_post(pre, w, self.state(), Ok(()), 0, false, 0));
                }
                Ok(())
            },
            0x29 => {
                let vx = self.regs.v[x as usize];
                self.regs.i = 5 * (vx as u16);
                proof {
                    assert(self.state() =~= spec_interpret_sys(pre, w, 0).0);
                    assert(interp_post(pre, w, self.state(), Ok(()), 0, false, 0));
                }
                Ok(())
            },
            0x33 => {
                if self.regs.i as usize + 2 >= HEAP_SIZE {
                    proof {
                        assert(interp_post(
                            pre,
                            w,
                            self.state(),
                            Err(Fault::OutOfBounds),
                            0,
                            false,
                            0,
                        ));
                    }
                    Err(Fault::OutOfBounds)
                } else {
                    self.bcd(x);
                    proof {
                        assert(self.state() =~= spec_interpret_sys(pre, w, 0).0);
                        assert(interp_post(pre, w, self.state(), Ok(()), 0, false, 0));
                    }
                    Ok(())
                }
            },
            0x55 => {
                if self.regs.i as usize + NUM_REGS > HEAP_SIZE {
                    proof {
                        assert(interp_post(
                            pre,
                            w,
                            self.state(),
                            Err(Fault::OutOfBounds),
                            0,
                            false,
                            0,
                        ));
                    }
                    Err(Fault::OutOfBounds)
                } else {
                    self.heap.write_bytes(self.regs.i, self.regs.v.as_slice());
                    proof {
                        assert(self.state().heap =~= write_seq(pre.heap, pre.i as int, pre.v));
                        assert(self.state() =~= spec_interpret_sys(pre, w, 0).0);
                        assert(interp_post(pre, w, self.state(), Ok(()), 0, false, 0));
                    }
                    Ok(())
                }
            },
            0x65 => {
                if self.regs.i as usize + NUM_REGS > HEAP_SIZE {
                    proof {
                        assert(interp_post(
                            pre,
                            w,
                            self.state(),
                            Err(Fault::OutOfBounds),
                            0,
                            false,
                            0,
                        ));
                    }
                    Err(Fault::OutOfBounds)
                } else {
                    let i0 = self.regs.i;
                    load_regs(&mut self.regs.v, &self.heap, i0);
                    proof {
                        assert(self.state() =~= spec_interpret_sys(pre, w, 0).0);
                        assert(interp_post(pre, w, self.state(), Ok(()), 0, false, 0));
                    }
                    Ok(())
                }
            },
            _ => {
                proof {
                    assert(interp_post(
                        pre,
                        w,
                        self.state(),
                        Err(Fault::InvalidInstruction(w)),
                        0,
                        false,
                        0,
                    ));
                }
                self.invalid_instruction(instruction)
            },
        }
    }
}

} // verus!

verus! {

impl<'t, D: Display, K: Keyboard, B: Buzzer, C: Clock, R: RandomSource> CPU<'t, D, K, B, C, R> {
    /// Interpret one decoded instruction word: the two-level dispatch over
    /// the opcode class, with the exact per-opcode semantics given by
    /// [`spec_interpret`] for the device readings the instruction consumed.
    /// A fault leaves the machine state unchanged.
    pub fn interpret(&mut self, instruction: Instr) -> (r: Result<(), Fault>)
        requires
            old(self).wf(),
            old(self).state().pc + 2 <= u16::MAX,
        ensures
            final(self).wf(),
            final(self).same_config(old(self)),
            final(self).spec_cycles() == old(self).spec_cycles(),
            final(self).spec_deadline() >= old(self).spec_deadline(),
            exists|rnd: u8, pressed: bool, key: u8|
                interp_post(
                    old(self).state(),
                    instruction.word(),
                    final(self).state(),
                    r,
                    rnd,
                    pressed,
                    key,
                ),
    {
        let w = instruction.instr();
        let ghost pre = old(self).state();
        match w & 0xF000 {
            0x0000 => {
                if w == 0x00E0 {
                    self.screen.clear();
                    proof {
                        assert(self.state().screen =~= Seq::new(PIXELS as nat, |k: int| false));
                        assert(self.state() =~= spec_interpret(pre, w, 0, false, 0).0);
                        assert(interp_post(pre, w, self.state(), Ok(()), 0, false, 0));
                    }
                    Ok(())
                } else if w == 0x00EE {
                    if self.stack.sp() == 0 {
                        proof {
                            assert(interp_post(
                                pre,
                                w,
                                self.state(),
                                Err(Fault::StackUnderflow),
                                0,
                                false,
                                0,
                            ));
                        }
                        Err(Fault::StackUnderflow)
                    } else {
                        let a = self.stack.pop();
                        self.regs.pc = a;
                        proof {
                            assert(self.state() =~= spec_interpret(pre, w, 0, false, 0).0);
                            assert(interp_post(pre, w, self.state(), Ok(()), 0, false, 0));
                        }
                        Ok(())
                    }
                } else {
                    proof {
                        assert(interp_post(pre, w, self.state(), Ok(()), 0, false, 0));
                    }
                    Ok(())
                }
            },
            0x1000 => {
                self.regs.pc = instruction.addr();
                proof {
                    assert(self.state() =~= spec_interpret(pre, w, 0, false, 0).0);
                    assert(interp_post(pre, w, self.state(), Ok(()), 0, false, 0));
                }
                Ok(())
            },
            0x2000 => {
                if self.stack.sp() >= STACK_SIZE {
                    proof {
                        assert(interp_post(
                            pre,
                            w,
                            self.state(),
                            Err(Fault::StackOverflow),
                            0,
                            false,
                            0,
                        ));
                    }
                    Err(Fault::StackOverflow)
                } else {
                    self.call(instruction.addr());
                    proof {
                        assert(self.state() =~= spec_interpret(pre, w, 0, false, 0).0);
                        assert(interp_post(pre, w, self.state(), Ok(()), 0, false, 0));
                    }
                    Ok(())
                }
            },
            0x3000 => {
                let vx = self.regs.v[instruction.x() as usize];
                self.skip_if(vx == instruction.byte());
                proof {
                    assert(self.state() =~= spec_interpret(pre, w, 0, false, 0).0);
                    assert(interp_post(pre, w, self.state(), Ok(()), 0, false, 0));
                }
                Ok(())
            },
            0x4000 => {
                let vx = self.regs.v[instruction.x() as usize];
                self.skip_if(vx != instruction.byte());
                proof {
                    assert(self.state() =~= spec_interpret(pre, w, 0, false, 0).0);
                    assert(interp_post(pre, w, self.state(), Ok(()), 0, false, 0));
                }
                Ok(())
            },
            0x5000 => {
                if instruction.nibble() == 0 {
                    let vx = self.regs.v[instruction.x() as usize];
                    let vy = self.regs.v[instruction.y() as usize];
                    self.skip_if(vx == vy);
                    proof {
                        assert(self.state() =~= spec_interpret(pre, w, 0, false, 0).0);
                        assert(interp_post(pre, w, self.state(), Ok(()), 0, false, 0));
                    }
                    Ok(())
                } else {
                    proof {
                        assert(interp_post(
                            pre,
                            w,
                            self.state(),
                            Err(Fault::InvalidInstruction(w)),
                            0,
                            false,
                            0,
                        ));
                    }
                    self.invalid_instruction(instruction)
                }
            },
            0x6000 => {
                self.regs.v[instruction.x() as usize] = instruction.byte();
                proof {
                    assert(self.state() =~= spec_interpret(pre, w, 0, false, 0).0);
                    assert(interp_post(pre, w, self.state(), Ok(()), 0, false, 0));
                }
                Ok(())
            },
            0x7000 => {
                let vx = self.regs.v[instruction.x() as usize];
                let sum = vx as u16 + instruction.byte() as u16;
                self.regs.v[instruction.x() as usize] = (sum % 256) as u8;
                proof {
                    assert(self.state() =~= spec_interpret(pre, w, 0, false, 0).0);
                    assert(interp_post(pre, w, self.state(), Ok(()), 0, false, 0));
                }
                Ok(())
            },
            0x8000 => {
                let r = self.interpret_0x8xxx(instruction);
                proof {
                    assert(interp_post(pre, w, self.state(), r, 0, false, 0));
                }
                r
            },
            0x9000 => {
                if instruction.nibble() == 0 {
                    let vx = self.regs.v[instruction.x() as usize];
                    let vy = self.regs.v[instruction.y() as usize];
                    self.skip_if(vx != vy);
                    proof {
                        assert(self.state() =~= spec_interpret(pre, w, 0, false, 0).0);
                        assert(interp_post(pre, w, self.state(), Ok(()), 0, false, 0));
                    }
                    Ok(())
                } else {
                    proof {
                        assert(interp_post(
                            pre,
                            w,
                            self.state(),
                            Err(Fault::InvalidInstruction(w)),
                            0,
                            false,
                            0,
                        ));
                    }
                    self.invalid_instruction(instruction)
                }
            },
            0xA000 => {
                self.regs.i = instruction.addr();
                proof {
                    assert(self.state() =~= spec_interpret(pre, w, 0, false, 0).0);
                    assert(interp_post(pre, w, self.state(), Ok(()), 0, false, 0));
                }
                Ok(())
            },
            0xB000 => {
                self.regs.pc = self.regs.v[0] as u16 + instruction.addr();
                proof {
                    assert(self.state() =~= spec_interpret(pre, w, 0, false, 0).0);
                    assert(interp_post(pre, w, self.state(), Ok(()), 0, false, 0));
                }
                Ok(())
            },
            0xC000 => {
                let rnd = self.rng.random_byte();
                self.regs.v[instruction.x() as usize] = rnd & instruction.byte();
                proof {
                    assert(self.state() =~= spec_interpret(pre, w, rnd, false, 0).0);
                    assert(interp_post(pre, w, self.state(), Ok(()), rnd, false, 0));
                }
                Ok(())
            },
            0xD000 => {
                let n = instruction.nibble();
                if self.regs.i as usize + n as usize > HEAP_SIZE {
                    proof {
                        assert(interp_post(
                            pre,
                            w,
                            self.state(),
                            Err(Fault::OutOfBounds),
                            0,
                            false,
                            0,
                        ));
                    }
                    Err(Fault::OutOfBounds)
                } else {
                    self.drw(n, instruction.x(), instruction.y());
                    proof {
                        assert(self.state() =~= spec_interpret(pre, w, 0, false, 0).0);
                        assert(interp_post(pre, w, self.state(), Ok(()), 0, false, 0));
                    }
                    Ok(())
                }
            },
            0xE000 => {
                let kk = instruction.byte();
                if kk == 0x9E || kk == 0xA1 {
                    let vx = self.regs.v[instruction.x() as usize];
                    let pressed = self.keyboard.pressed(vx);
                    self.skip_if(pressed == (kk == 0x9E));
                    proof {
                        assert(self.state() =~= spec_interpret(pre, w, 0, pressed, 0).0);
                        assert(interp_post(pre, w, self.state(), Ok(()), 0, pressed, 0));
                    }
                    Ok(())
                } else {
                    proof {
                        assert(interp_post(
                            pre,
                            w,
                            self.state(),
                            Err(Fault::InvalidInstruction(w)),
                            0,
                            false,
                            0,
                        ));
                    }
                    self.invalid_instruction(instruction)
                }
            },
            0xF000 => {
                let r = self.interpret_0xfxxx(instruction);
                proof {
                    let k = choose|key: u8|
                        interp_post(pre, w, self.state(), r, 0, false, key);
                    assert(interp_post(pre, w, self.state(), r, 0, false, k));
                }
                r
            },
            _ => {
                proof {
                    assert(interp_post(
                        pre,
                        w,
                        self.state(),
                        Err(Fault::InvalidInstruction(w)),
                        0,
                        false,
                        0,
                    ));
                }
                self.invalid_instruction(instruction)
            },
        }
    }
}

} // verus!

verus! {

impl<'t, D: Display, K: Keyboard, B: Buzzer, C: Clock, R: RandomSource> CPU<'t, D, K, B, C, R> {
    /// One whole cycle, as [`spec_step`] states it: every cycle whose count
    /// is a multiple of the clock multiplier first ticks both timers; then
    /// the instruction at the program counter is fetched (a fault if the
    /// counter has run past the heap end), the counter advances over it,
    /// and the word is interpreted. The cycle counter grows only on
    /// success; a fault stops the machine where the rule says.
    pub fn step(&mut self) -> (r: Result<(), Fault>)
        requires
            old(self).wf(),
        ensures
            final(self).wf(),
            final(self).same_config(old(self)),
            final(self).spec_deadline() >= old(self).spec_deadline(),
            r is Ok ==> final(self).spec_cycles() == (if old(self).spec_cycles() == u64::MAX {
                0u64
            } else {
                (old(self).spec_cycles() + 1) as u64
            }),
            r is Err ==> final(self).spec_cycles() == old(self).spec_cycles(),
            exists|rnd: u8, pressed: bool, key: u8|
                #[trigger] step_post(
                    old(self).state(),
                    old(self).spec_cycles(),
                    old(self).spec_multiplier(),
                    final(self).state(),
                    r,
                    rnd,
                    pressed,
                    key,
                ),
    {
        let ghost pre = old(self).state();
        let ghost c0 = old(self).spec_cycles();
        let ghost m = old(self).spec_multiplier();
        if self.cycles % self.clock_multiplier == 0 {
            if self.regs.dt != 0 {
                self.regs.dt = self.regs.dt - 1;
            }
            if self.regs.st != 0 {
                self.regs.st = self.regs.st - 1;
            }
        }
        let ghost s0 = if c0 % m == 0 {
            spec_tick_timers(pre)
        } else {
            pre
        };
        proof {
            assert(self.state() =~= s0);
        }
        if self.regs.pc as usize >= HEAP_SIZE - 1 {
            proof {
                assert(step_post(pre, c0, m, self.state(), Err(Fault::OutOfBounds), 0, false, 0));
            }
            return Err(Fault::OutOfBounds);
        }
        let instr = self.heap.read_instr(self.regs.pc);
        self.regs.pc = self.regs.pc + 2;
        let ghost mid = self.state();
        proof {
            assert(mid =~= (State { pc: (s0.pc + 2) as u16, ..s0 }));
        }
        let r = self.interpret(instr);
        let ghost post_state = self.state();
        let ghost gw = choose|rnd: u8, pressed: bool, key: u8|
            interp_post(mid, instr.word(), post_state, r, rnd, pressed, key);
        proof {
            assert(step_post(pre, c0, m, post_state, r, gw.0, gw.1, gw.2));
        }
        match r {
            Ok(()) => {
                self.cycles = if self.cycles == u64::MAX {
                    0
                } else {
                    self.cycles + 1
                };
                proof {
                    assert(self.state() =~= post_state);
                    assert(step_post(pre, c0, m, self.state(), Ok(()), gw.0, gw.1, gw.2));
                    assert(exists|rnd: u8, pressed: bool, key: u8|
                        #[trigger] step_post(
                            old(self).state(),
                            old(self).spec_cycles(),
                            old(self).spec_multiplier(),
                            self.state(),
                            Ok(()),
                            rnd,
                            pressed,
                            key,
                        ));
                }
                Ok(())
            },
            Err(f) => {
                proof {
                    assert(step_post(pre, c0, m, self.state(), r, gw.0, gw.1, gw.2));
                }
                Err(f)
            },
        }
    }

    /// Run up to `ticks` cycles under deadline pacing: when the clock has
    /// reached the next-cycle deadline, execute one cycle and advance the
    /// deadline by the fixed cycle duration; otherwise sleep briefly, then
    /// honor a power-off signal (stop) or a reset signal (full reset, with
    /// the pacing baseline restarted at the current instant). The machine
    /// evolves only by paced cycles and such resets ([`reaches`]); a fault
    /// stops the loop at the fault's own state and is returned.
    pub fn execute(&mut self, ticks: u64) -> (r: Result<(), Fault>)
        requires
            old(self).wf(),
        ensures
            final(self).wf(),
            final(self).same_config(old(self)),
            r is Ok ==> reaches(
                old(self).state(),
                old(self).spec_cycles(),
                old(self).spec_deadline(),
                old(self).spec_multiplier(),
                old(self).spec_cycle_time(),
                old(self).spec_rom(),
                final(self).state(),
                final(self).spec_cycles(),
                final(self).spec_deadline(),
            ),
            r is Err ==> exists|s1: State, c1: u64, d1: u64, rnd: u8, pressed: bool, key: u8|
                #[trigger] spec_faulted_run(
                    old(self).state(),
                    old(self).spec_cycles(),
                    old(self).spec_deadline(),
                    old(self).spec_multiplier(),
                    old(self).spec_cycle_time(),
                    old(self).spec_rom(),
                    s1,
                    c1,
                    d1,
                    rnd,
                    pressed,
                    key,
                    final(self).state(),
                    fault_of(r),
                ),
    {
        let ghost m0 = old(self).spec_multiplier();
        let ghost ct0 = old(self).spec_cycle_time();
        let ghost rom0 = old(self).spec_rom();
        let ghost s_0 = old(self).state();
        let ghost c_0 = old(self).spec_cycles();
        let ghost d_0 = old(self).spec_deadline();
        proof {
            lemma_reaches_here(s_0, c_0, d_0, m0, ct0, rom0);
        }
        let mut t = ticks;
        let mut now = self.clock.now();
        while t > 0
            invariant
                self.wf(),
                self.same_config(old(self)),
                m0 == old(self).spec_multiplier(),
                ct0 == old(self).spec_cycle_time(),
                rom0 == old(self).spec_rom(),
                s_0 == old(self).state(),
                c_0 == old(self).spec_cycles(),
                d_0 == old(self).spec_deadline(),
                reaches(
                    s_0,
                    c_0,
                    d_0,
                    m0,
                    ct0,
                    rom0,
                    self.state(),
                    self.spec_cycles(),
                    self.spec_deadline(),
                ),
            decreases t, time_to_deadline(now, self.next_cycle_deadline),
        {
            if now >= self.next_cycle_deadline {
                let ghost s1 = self.state();
                let ghost c1 = self.spec_cycles();
                let ghost d1 = self.spec_deadline();
                match self.step() {
                    Ok(()) => {},
                    Err(f) => {
                        proof {
                            let gw = choose|rnd: u8, pressed: bool, key: u8|
                                step_post(s1, c1, m0, self.state(), Err(f), rnd, pressed, key);
                            assert(spec_faulted_run(
                                s_0,
                                c_0,
                                d_0,
                                m0,
                                ct0,
                                rom0,
                                s1,
                                c1,
                                d1,
                                gw.0,
                                gw.1,
                                gw.2,
                                self.state(),
                                fault_of(Err::<(), Fault>(f)),
                            ));
                        }
                        return Err(f);
                    },
                }
                let ghost s2 = self.state();
                self.next_cycle_deadline = if self.next_cycle_deadline <= u64::MAX
                    - self.cycle_time_nanos {
                    self.next_cycle_deadline + self.cycle_time_nanos
                } else {
                    u64::MAX
                };
                t = t - 1;
                proof {
                    let gw = choose|rnd: u8, pressed: bool, key: u8|
                        step_post(s1, c1, m0, s2, Ok(()), rnd, pressed, key);
                    assert(self.state() =~= s2);
                    assert(self.spec_deadline() >= sat_add64(d1, ct0));
                    assert(spec_cycle_transition(
                        s1,
                        c1,
                        d1,
                        m0,
                        ct0,
                        self.state(),
                        self.spec_cycles(),
                        self.spec_deadline(),
                    ));
                    lemma_reaches_extend(
                        s_0,
                        c_0,
                        d_0,
                        m0,
                        ct0,
                        rom0,
                        s1,
                        c1,
                        d1,
                        self.state(),
                        self.spec_cycles(),
                        self.spec_deadline(),
                    );
                }
            } else {
                now = self.clock.sleep_at_least(self.cycle_sleep_millis, now);
                if self.keyboard.power_off_signal() {
                    t = 0;
                }
                if self.keyboard.reset_signal() {
                    let ghost s1 = self.state();
                    let ghost c1 = self.spec_cycles();
                    let ghost d1 = self.spec_deadline();
                    self.reset();
                    self.next_cycle_deadline = now;
                    proof {
                        assert(spec_reset_transition(rom0, self.state(), self.spec_cycles()));
                        lemma_reaches_extend(
                            s_0,
                            c_0,
                            d_0,
                            m0,
                            ct0,
                            rom0,
                            s1,
                            c1,
                            d1,
                            self.state(),
                            self.spec_cycles(),
                            self.spec_deadline(),
                        );
                    }
                }
            }
        }
        Ok(())
    }

    /// Loop forever from the current instant: pace cycles against the wall
    /// clock until a power-off signal or a fault. The pacing baseline is
    /// taken from the clock before the first cycle, so the machine evolves
    /// from its current state with some initial deadline.
    pub fn run(&mut self) -> (r: Result<(), Fault>)
        requires
            old(self).wf(),
        ensures
            final(self).wf(),
            final(self).same_config(old(self)),
            r is Ok ==> exists|d0: u64|
                #[trigger] reaches(
                    old(self).state(),
                    old(self).spec_cycles(),
                    d0,
                    old(self).spec_multiplier(),
                    old(self).spec_cycle_time(),
                    old(self).spec_rom(),
                    final(self).state(),
                    final(self).spec_cycles(),
                    final(self).spec_deadline(),
                ),
            r is Err ==> exists|
                d0: u64,
                s1: State,
                c1: u64,
                d1: u64,
                rnd: u8,
                pressed: bool,
                key: u8,
            |
                #[trigger] spec_faulted_run(
                    old(self).state(),
                    old(self).spec_cycles(),
                    d0,
                    old(self).spec_multiplier(),
                    old(self).spec_cycle_time(),
                    old(self).spec_rom(),
                    s1,
                    c1,
                    d1,
                    rnd,
                    pressed,
                    key,
                    final(self).state(),
                    fault_of(r),
                ),
    {
        let n = self.clock.now();
        self.next_cycle_deadline = n;
        proof {
            assert(self.state() =~= old(self).state());
        }
        let r = self.execute(u64::MAX);
        proof {
            match r {
                Ok(()) => {
                    assert(reaches(
                        old(self).state(),
                        old(self).spec_cycles(),
                        n,
                        old(self).spec_multiplier(),
                        old(self).spec_cycle_time(),
                        old(self).spec_rom(),
                        self.state(),
                        self.spec_cycles(),
                        self.spec_deadline(),
                    ));
                },
                Err(f) => {
                    let gw = choose|s1: State, c1: u64, d1: u64, rnd: u8, pressed: bool, key: u8|
                        spec_faulted_run(
                            old(self).state(),
                            old(self).spec_cycles(),
                            n,
                            old(self).spec_multiplier(),
                            old(self).spec_cycle_time(),
                            old(self).spec_rom(),
                            s1,
                            c1,
                            d1,
                            rnd,
                            pressed,
                            key,
                            self.state(),
                            fault_of(Err::<(), Fault>(f)),
                        );
                    assert(spec_faulted_run(
                        old(self).state(),
                        old(self).spec_cycles(),
                        n,
                        old(self).spec_multiplier(),
                        old(self).spec_cycle_time(),
                        old(self).spec_rom(),
                        gw.0,
                        gw.1,
                        gw.2,
                        gw.3,
                        gw.4,
                        gw.5,
                        self.state(),
                        fault_of(Err::<(), Fault>(f)),
                    ));
                },
            }
        }
        r
    }

    /// The value of general register `x`.
    pub fn reg(&self, x: u8) -> (r: u8)
        requires
            self.wf(),
            x < 16,
        ensures
            r == self.state().v[x as int],
    {
        self.regs.v[x as usize]
    }

    /// The program counter.
    pub fn pc(&self) -> (r: u16)
        ensures
            r == self.state().pc,
    {
        self.regs.pc
    }

    /// The index register.
    pub fn index_reg(&self) -> (r: u16)
        ensures
            r == self.state().i,
    {
        self.regs.i
    }

    /// The delay timer.
    pub fn delay_timer(&self) -> (r: u8)
        ensures
            r == self.state().dt,
    {
        self.regs.dt
    }

    /// The sound timer.
    pub fn sound_timer(&self) -> (r: u8)
        ensures
            r == self.state().st,
    {
        self.regs.st
    }

    /// The number of live return addresses on the stack.
    pub fn stack_depth(&self) -> (r: usize)
        ensures
            r == self.state().stack.len(),
    {
        self.stack.sp()
    }

    /// How many cycles have run since the last reset.
    pub fn cycle_count(&self) -> (r: u64)
        ensures
            r == self.spec_cycles(),
    {
        self.cycles
    }

    /// The heap byte at `addr`.
    pub fn heap_byte(&self, addr: u16) -> (r: u8)
        requires
            self.wf(),
            addr < HEAP_SIZE,
        ensures
            r == self.state().heap[addr as int],
    {
        self.heap.read_byte(addr)
    }

    /// The display bit-plane.
    pub fn screen_ref(&self) -> (r: &Screen)
        requires
            self.wf(),
        ensures
            r@ == self.state().screen,
            r.wf(),
    {
        &self.screen
    }
}

/// Law: adding an immediate (class `0x7`) wraps modulo 256 and, when the
/// target is not the flags register, leaves `V[15]` unchanged; it never
/// faults. (When the target is `V[15]` itself, the sum lands there.)
pub proof fn lemma_add_immediate(s: State, w: u16, rnd: u8, pressed: bool, key: u8)
    requires
        s.wf(),
        w & 0xF000 == 0x7000,
    ensures
        ({
            let (s2, f) = spec_interpret(s, w, rnd, pressed, key);
            &&& f is None
            &&& s2.v[op_x(w)] as int == (s.v[op_x(w)] + op_kk(w)) % 256
            &&& op_x(w) != LAST_REG ==> s2.v[LAST_REG as int] == s.v[LAST_REG as int]
            &&& s2 == (State { v: s2.v, ..s })
        }),
{
    assert((((w >> 8) & 0x0F) as u8) < 16) by (bit_vector);
}

/// Law: add-with-carry (opcode class `0x8`, selector `0x4`) sets `V[15]`
/// to 1 exactly when the true sum exceeds 255 and, when the target is not
/// the flags register itself, stores the sum modulo 256 there; it never
/// faults. (The flag is written last, so at x = 15 the carry wins.)
pub proof fn lemma_add_with_carry(s: State, w: u16, rnd: u8, pressed: bool, key: u8)
    requires
        s.wf(),
        w & 0xF000 == 0x8000,
        op_n(w) == 0x4,
    ensures
        ({
            let (s2, f) = spec_interpret(s, w, rnd, pressed, key);
            &&& f is None
            &&& op_x(w) != LAST_REG ==> s2.v[op_x(w)] as int == (s.v[op_x(w)] + s.v[op_y(w)]) % 256
            &&& s2.v[LAST_REG as int] == (if s.v[op_x(w)] + s.v[op_y(w)] > 255 {
                1u8
            } else {
                0u8
            })
        }),
{
    assert((((w >> 8) & 0x0F) as u8) < 16 && (((w >> 4) & 0x0F) as u8) < 16) by (bit_vector);
}

/// Law: subtraction (opcode class `0x8`, selector `0x5`) stores the
/// difference, wrapping modulo 256 when the subtrahend is larger, and, when
/// the target is not the flags register itself, sets `V[15]` to 1 exactly
/// when the minuend was strictly larger (no borrow); it never faults.
pub proof fn lemma_sub_borrow(s: State, w: u16, rnd: u8, pressed: bool, key: u8)
    requires
        s.wf(),
        w & 0xF000 == 0x8000,
        op_n(w) == 0x5,
    ensures
        ({
            let (s2, f) = spec_interpret(s, w, rnd, pressed, key);
            &&& f is None
            &&& s2.v[op_x(w)] as int == (s.v[op_x(w)] - s.v[op_y(w)] + 256) % 256
            &&& op_x(w) != LAST_REG ==> s2.v[LAST_REG as int] == (if s.v[op_x(w)] > s.v[op_y(w)] {
                1u8
            } else {
                0u8
            })
        }),
{
    assert((((w >> 8) & 0x0F) as u8) < 16 && (((w >> 4) & 0x0F) as u8) < 16) by (bit_vector);
}

/// Law: pushing a return address and then popping yields that address and
/// restores the stack below it, for any stack with room to push.
pub proof fn lemma_stack_round_trip(stack: Seq<u16>, val: u16)
    requires
        stack.len() < STACK_SIZE,
    ensures
        stack.push(val).last() == val,
        stack.push(val).drop_last() == stack,
{
    assert(stack.push(val).drop_last() =~= stack);
}

} // verus!
