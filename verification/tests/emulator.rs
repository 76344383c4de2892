use std::cell::Cell;
use std::rc::Rc;

use koro8::arch::{Buzzer, Clock, Display, Keyboard, RandomSource};
use koro8::cpu::{Fault, CPU};
use koro8::mem::{Heap, Instr, Stack};
use koro8::screen::Screen;

struct NullDisplay;

impl Display for NullDisplay {
    fn present(&mut self, _screen: &Screen) {}

    fn reset(&mut self) {}
}

struct TestBuzzer {
    started: Rc<Cell<u32>>,
}

impl Buzzer for TestBuzzer {
    fn start(&mut self) {
        self.started.set(self.started.get() + 1);
    }

    fn stop(&mut self) {}

    fn reset(&mut self) {}
}

struct TestKeyboard {
    pressed_keys: [bool; 16],
    next_key: u8,
    reset_pending: bool,
    power_off_countdown: u32,
}

impl TestKeyboard {
    fn idle() -> TestKeyboard {
        TestKeyboard {
            pressed_keys: [false; 16],
            next_key: 0,
            reset_pending: false,
            power_off_countdown: u32::MAX,
        }
    }
}

impl Keyboard for TestKeyboard {
    fn pressed(&mut self, key: u8) -> bool {
        self.pressed_keys[(key & 0xF) as usize]
    }

    fn wait_key(&mut self) -> u8 {
        self.next_key & 0xF
    }

    fn reset_signal(&mut self) -> bool {
        let r = self.reset_pending;
        self.reset_pending = false;
        r
    }

    fn power_off_signal(&mut self) -> bool {
        if self.power_off_countdown == 0 {
            true
        } else {
            self.power_off_countdown -= 1;
            false
        }
    }

    fn reset(&mut self) {}
}

struct FakeClock {
    t: Rc<Cell<u64>>,
}

impl FakeClock {
    fn new() -> (FakeClock, Rc<Cell<u64>>) {
        let t = Rc::new(Cell::new(0u64));
        (FakeClock { t: Rc::clone(&t) }, t)
    }
}

impl Clock for FakeClock {
    fn now(&mut self) -> u64 {
        self.t.get()
    }

    fn sleep_at_least(&mut self, millis: u64, from: u64) -> u64 {
        let advance = if millis == 0 { 1 } else { millis * 1_000_000 };
        self.t.set(from.saturating_add(advance));
        self.t.get()
    }
}

struct FixedRandom {
    val: u8,
}

impl RandomSource for FixedRandom {
    fn random_byte(&mut self) -> u8 {
        self.val
    }
}

type TestCpu<'t> = CPU<'t, NullDisplay, TestKeyboard, TestBuzzer, FakeClock, FixedRandom>;

fn cpu_with(keyboard: TestKeyboard, rng_val: u8, multiplier: u64) -> (TestCpu<'static>, Rc<Cell<u32>>) {
    let started = Rc::new(Cell::new(0));
    let cpu = koro8::cpu::new(
        NullDisplay,
        keyboard,
        TestBuzzer { started: Rc::clone(&started) },
        FakeClock::new().0,
        FixedRandom { val: rng_val },
        multiplier,
    );
    (cpu, started)
}

fn fresh_cpu() -> TestCpu<'static> {
    cpu_with(TestKeyboard::idle(), 0, 11).0
}

fn interp(cpu: &mut TestCpu<'_>, word: u16) {
    cpu.interpret(Instr::new(word)).expect("instruction faulted");
}

#[test]
fn decode_fields() {
    let mut heap = Heap::new();
    heap.write_byte(0x40, 0xAB);
    heap.write_byte(0x41, 0xCD);
    let instr = heap.read_instr(0x40);
    assert_eq!(instr.instr(), 0xABCD);
    assert_eq!(instr.addr(), 0xBCD);
    assert_eq!(instr.x(), 0xB);
    assert_eq!(instr.y(), 0xC);
    assert_eq!(instr.nibble(), 0xD);
    assert_eq!(instr.byte(), 0xCD);
}

#[test]
fn stack_round_trip() {
    let mut stack = Stack::new();
    assert_eq!(stack.sp(), 0);
    for k in 0..16u16 {
        stack.push(0x200 + k);
        assert_eq!(stack.sp(), (k + 1) as usize);
    }
    for k in (0..16u16).rev() {
        assert_eq!(stack.pop(), 0x200 + k);
        assert_eq!(stack.sp(), k as usize);
    }
    stack.push(0xABC);
    assert_eq!(stack.pop(), 0xABC);
    assert_eq!(stack.sp(), 0);
}

#[test]
fn heap_read_write() {
    let mut heap = Heap::new();
    assert_eq!(heap.read_byte(123), 0);
    heap.write_bytes(100, &[1, 2, 3]);
    assert_eq!(heap.read_bytes(99, 5), &[0u8, 1, 2, 3, 0][..]);
    let sprite = heap.read_sprite(100, 2);
    assert_eq!(sprite.0, &[1u8, 2][..]);
}

#[test]
fn add_immediate_wraps_and_keeps_flags() {
    // For all bytes a and b the sum wraps modulo 256; 200 + 100 is one case.
    let mut cpu = fresh_cpu();
    cpu.load(&[]);
    interp(&mut cpu, 0x60C8); // V0 := 200
    interp(&mut cpu, 0x6F63); // V15 := 99
    interp(&mut cpu, 0x7064); // V0 += 100
    assert_eq!(cpu.reg(0), 44);
    assert_eq!(cpu.reg(15), 99); // flags untouched
}

#[test]
fn add_with_carry() {
    let mut cpu = fresh_cpu();
    cpu.load(&[]);
    interp(&mut cpu, 0x60C8); // V0 := 200
    interp(&mut cpu, 0x6164); // V1 := 100
    interp(&mut cpu, 0x8014); // V0 += V1 with carry
    assert_eq!(cpu.reg(0), 44);
    assert_eq!(cpu.reg(15), 1);
    interp(&mut cpu, 0x600A); // V0 := 10
    interp(&mut cpu, 0x6114); // V1 := 20
    interp(&mut cpu, 0x8014);
    assert_eq!(cpu.reg(0), 30);
    assert_eq!(cpu.reg(15), 0);
    // The sum is stored first and the carry last, so when the target is
    // the flags register itself the carry wins.
    interp(&mut cpu, 0x6FC8); // V15 := 200
    interp(&mut cpu, 0x6064); // V0 := 100
    interp(&mut cpu, 0x8F04); // V15 += V0 with carry
    assert_eq!(cpu.reg(15), 1);
}

#[test]
fn class_zero_dispatch_is_exact() {
    // Only the exact words clear the display and return; any other word of
    // class 0 is an ignored machine-code call.
    let mut cpu = fresh_cpu();
    let rom = [0xFFu8];
    cpu.load(&rom);
    interp(&mut cpu, 0xA200);
    interp(&mut cpu, 0xD011); // light pixels
    interp(&mut cpu, 0x2345); // call: stack depth 1
    let pc = cpu.pc();
    interp(&mut cpu, 0x01E0); // no-op, not a clear
    assert!(cpu.screen_ref().pixel_at(0, 0));
    assert_eq!(cpu.pc(), pc);
    interp(&mut cpu, 0x02EE); // no-op, not a return
    assert_eq!(cpu.stack_depth(), 1);
    assert_eq!(cpu.pc(), pc);
    interp(&mut cpu, 0x00E0); // the exact word clears
    assert!(!cpu.screen_ref().pixel_at(0, 0));
    interp(&mut cpu, 0x00EE); // the exact word returns
    assert_eq!(cpu.stack_depth(), 0);
}

#[test]
fn sub_with_borrow_flag() {
    let mut cpu = fresh_cpu();
    cpu.load(&[]);
    interp(&mut cpu, 0x600A); // V0 := 10
    interp(&mut cpu, 0x6103); // V1 := 3
    interp(&mut cpu, 0x8015); // V0 -= V1
    assert_eq!(cpu.reg(0), 7);
    assert_eq!(cpu.reg(15), 1);
    // The underflow condition: the difference wraps modulo 256 and the
    // flag reports the borrow.
    interp(&mut cpu, 0x6003); // V0 := 3
    interp(&mut cpu, 0x610A); // V1 := 10
    interp(&mut cpu, 0x8015);
    assert_eq!(cpu.reg(0), 249);
    assert_eq!(cpu.reg(15), 0);
}

#[test]
fn sub_reversed() {
    let mut cpu = fresh_cpu();
    cpu.load(&[]);
    interp(&mut cpu, 0x6003); // V0 := 3
    interp(&mut cpu, 0x610A); // V1 := 10
    interp(&mut cpu, 0x8017); // V0 := V1 - V0
    assert_eq!(cpu.reg(0), 7);
    assert_eq!(cpu.reg(15), 1);
}

#[test]
fn bitwise_ops() {
    let mut cpu = fresh_cpu();
    cpu.load(&[]);
    interp(&mut cpu, 0x60F0);
    interp(&mut cpu, 0x613C);
    interp(&mut cpu, 0x8011); // OR
    assert_eq!(cpu.reg(0), 0xFC);
    interp(&mut cpu, 0x60F0);
    interp(&mut cpu, 0x8012); // AND
    assert_eq!(cpu.reg(0), 0x30);
    interp(&mut cpu, 0x60F0);
    interp(&mut cpu, 0x8013); // XOR
    assert_eq!(cpu.reg(0), 0xCC);
    interp(&mut cpu, 0x8010); // V0 := V1
    assert_eq!(cpu.reg(0), 0x3C);
}

#[test]
fn shifts() {
    let mut cpu = fresh_cpu();
    cpu.load(&[]);
    interp(&mut cpu, 0x6005); // V0 := 0b101
    interp(&mut cpu, 0x8006); // shift right
    assert_eq!(cpu.reg(0), 2);
    assert_eq!(cpu.reg(15), 1);
    interp(&mut cpu, 0x6081); // V0 := 0x81
    interp(&mut cpu, 0x800E); // shift left
    assert_eq!(cpu.reg(0), 0x02);
    assert_eq!(cpu.reg(15), 1);
    interp(&mut cpu, 0x6040);
    interp(&mut cpu, 0x800E);
    assert_eq!(cpu.reg(0), 0x80);
    assert_eq!(cpu.reg(15), 0);
}

#[test]
fn bcd_writes_digits() {
    let mut cpu = fresh_cpu();
    cpu.load(&[]);
    interp(&mut cpu, 0x60EA); // V0 := 234
    interp(&mut cpu, 0xA300); // I := 0x300
    interp(&mut cpu, 0xF033);
    assert_eq!(cpu.heap_byte(0x300), 2);
    assert_eq!(cpu.heap_byte(0x301), 3);
    assert_eq!(cpu.heap_byte(0x302), 4);
}

#[test]
fn draw_twice_collides_and_clears() {
    // An 8x1 sprite of 0xFF at (0,0): the first draw lights all eight
    // pixels with no collision, the second clears them and reports one.
    let mut cpu = fresh_cpu();
    let rom = [0xFFu8];
    cpu.load(&rom);
    interp(&mut cpu, 0xA200); // I := 0x200, the sprite byte
    interp(&mut cpu, 0x6000); // V0 := 0
    interp(&mut cpu, 0x6100); // V1 := 0
    interp(&mut cpu, 0xD011); // draw 1 row at (V0, V1)
    assert_eq!(cpu.reg(15), 0);
    for x in 0..8 {
        assert!(cpu.screen_ref().pixel_at(x, 0));
    }
    assert!(!cpu.screen_ref().pixel_at(8, 0));
    interp(&mut cpu, 0xD011);
    assert_eq!(cpu.reg(15), 1);
    for x in 0..8 {
        assert!(!cpu.screen_ref().pixel_at(x, 0));
    }
}

#[test]
fn draw_wraps_columns() {
    // Drawing at x = 60 wraps columns 60 to 63, then 0 to 3.
    let mut cpu = fresh_cpu();
    let rom = [0xFFu8];
    cpu.load(&rom);
    interp(&mut cpu, 0xA200);
    interp(&mut cpu, 0x603C); // V0 := 60
    interp(&mut cpu, 0x6105); // V1 := 5
    interp(&mut cpu, 0xD011);
    for x in 60..64 {
        assert!(cpu.screen_ref().pixel_at(x, 5));
    }
    for x in 0..4 {
        assert!(cpu.screen_ref().pixel_at(x, 5));
    }
    for x in 4..60 {
        assert!(!cpu.screen_ref().pixel_at(x, 5));
    }
}

#[test]
fn draw_wraps_rows() {
    let mut cpu = fresh_cpu();
    let rom = [0x80u8, 0x80];
    cpu.load(&rom);
    interp(&mut cpu, 0xA200);
    interp(&mut cpu, 0x6000); // V0 := 0
    interp(&mut cpu, 0x611F); // V1 := 31
    interp(&mut cpu, 0xD012); // two rows at (0, 31): rows 31 and 0
    assert!(cpu.screen_ref().pixel_at(0, 31));
    assert!(cpu.screen_ref().pixel_at(0, 0));
}

#[test]
fn clear_display() {
    let mut cpu = fresh_cpu();
    let rom = [0xFFu8];
    cpu.load(&rom);
    interp(&mut cpu, 0xA200);
    interp(&mut cpu, 0xD011);
    assert!(cpu.screen_ref().pixel_at(0, 0));
    interp(&mut cpu, 0x00E0);
    for x in 0..64 {
        for y in 0..32 {
            assert!(!cpu.screen_ref().pixel_at(x, y));
        }
    }
}

#[test]
fn timer_decrements_once_per_multiplier_cycles() {
    // With clock multiplier 11, exactly one timer decrement per 11 cycles.
    let mut cpu = fresh_cpu(); // multiplier 11
    cpu.load(&[0x60, 9, 0xF0, 0x15]); // V0 := 9; DT := V0
    cpu.step().unwrap(); // cycle 0: tick (timers at 0), V0 := 9
    cpu.step().unwrap(); // cycle 1: DT := 9
    assert_eq!(cpu.delay_timer(), 9);
    // Cycles 2 through 10 execute no-ops without any decrement.
    for _ in 2..11 {
        cpu.step().unwrap();
    }
    assert_eq!(cpu.delay_timer(), 9);
    // Cycle 11 is the next hardware tick: exactly one decrement.
    cpu.step().unwrap();
    assert_eq!(cpu.delay_timer(), 8);
    // Eleven more cycles, exactly one more decrement.
    for _ in 0..11 {
        cpu.step().unwrap();
    }
    assert_eq!(cpu.delay_timer(), 7);
}

#[test]
fn sound_timer_and_buzzer() {
    let keyboard = TestKeyboard::idle();
    let (mut cpu, started) = cpu_with(keyboard, 0, 11);
    cpu.load(&[]);
    interp(&mut cpu, 0x6005); // V0 := 5
    interp(&mut cpu, 0xF018); // ST := V0, starts the tone from silence
    assert_eq!(cpu.sound_timer(), 5);
    assert_eq!(started.get(), 1);
    interp(&mut cpu, 0xF018); // ST was nonzero: no new tone
    assert_eq!(started.get(), 1);
}

#[test]
fn timer_read_write() {
    let mut cpu = fresh_cpu();
    cpu.load(&[]);
    interp(&mut cpu, 0x602A); // V0 := 42
    interp(&mut cpu, 0xF015); // DT := V0
    interp(&mut cpu, 0xF107); // V1 := DT
    assert_eq!(cpu.reg(1), 42);
    assert_eq!(cpu.delay_timer(), 42);
}

#[test]
fn reset_signal_mid_run_restores_fresh_state() {
    // The reset signal during the pacing loop restores the reset vector,
    // zeroes registers and the cycle counter, clears the stack, and
    // reloads font and ROM; execution then proceeds as from a fresh load.
    let mut keyboard = TestKeyboard::idle();
    keyboard.reset_pending = true;
    keyboard.power_off_countdown = 1;
    let (mut cpu, _) = cpu_with(keyboard, 0, 1);
    let rom = [0x60u8, 0x07, 0x22, 0x08, 0x00, 0x00, 0x00, 0x00, 0x6F, 0x01];
    cpu.load(&rom);
    // One cycle runs before the clock falls behind the deadline; the sleep
    // branch then sees the reset signal, resets, and re-baselines pacing.
    cpu.run().unwrap();
    // After the reset exactly one more cycle ran before power-off.
    assert_eq!(cpu.cycle_count(), 1);
    assert_eq!(cpu.pc(), 0x202);
    assert_eq!(cpu.reg(0), 7);
    assert_eq!(cpu.reg(15), 0);
    assert_eq!(cpu.stack_depth(), 0);
    assert_eq!(cpu.delay_timer(), 0);
    assert_eq!(cpu.sound_timer(), 0);
    assert_eq!(cpu.heap_byte(0), 0xF0); // font reloaded
    assert_eq!(cpu.heap_byte(0x200), 0x60); // ROM reloaded
}

#[test]
fn reset_restores_everything() {
    let mut cpu = fresh_cpu();
    let rom = [0xFFu8, 0x12];
    cpu.load(&rom);
    interp(&mut cpu, 0x6309); // V3 := 9
    interp(&mut cpu, 0xA200);
    interp(&mut cpu, 0xD011); // light pixels
    interp(&mut cpu, 0x2400); // call: stack depth 1
    interp(&mut cpu, 0x602A);
    interp(&mut cpu, 0xF015); // DT := 42
    cpu.reset();
    assert_eq!(cpu.pc(), 512);
    for x in 0..16 {
        assert_eq!(cpu.reg(x), 0);
    }
    assert_eq!(cpu.index_reg(), 0);
    assert_eq!(cpu.stack_depth(), 0);
    assert_eq!(cpu.delay_timer(), 0);
    assert_eq!(cpu.cycle_count(), 0);
    assert!(!cpu.screen_ref().pixel_at(0, 0));
    assert_eq!(cpu.heap_byte(0), 0xF0);
    assert_eq!(cpu.heap_byte(79), 0x80);
    assert_eq!(cpu.heap_byte(80), 0);
    assert_eq!(cpu.heap_byte(0x200), 0xFF);
    assert_eq!(cpu.heap_byte(0x201), 0x12);
    assert_eq!(cpu.heap_byte(0x202), 0);
}

#[test]
fn jumps_calls_and_returns() {
    let mut cpu = fresh_cpu();
    cpu.load(&[]);
    interp(&mut cpu, 0x1234);
    assert_eq!(cpu.pc(), 0x234);
    interp(&mut cpu, 0x2345);
    assert_eq!(cpu.pc(), 0x345);
    assert_eq!(cpu.stack_depth(), 1);
    interp(&mut cpu, 0x00EE);
    assert_eq!(cpu.pc(), 0x234);
    assert_eq!(cpu.stack_depth(), 0);
}

#[test]
fn jump_with_offset() {
    let mut cpu = fresh_cpu();
    cpu.load(&[]);
    interp(&mut cpu, 0x6003); // V0 := 3
    interp(&mut cpu, 0xB300); // PC := V0 + 0x300
    assert_eq!(cpu.pc(), 0x303);
}

#[test]
fn conditional_skips() {
    let mut cpu = fresh_cpu();
    cpu.load(&[]);
    let base = cpu.pc();
    interp(&mut cpu, 0x3000); // V0 == 0: skip
    assert_eq!(cpu.pc(), base + 2);
    interp(&mut cpu, 0x3001); // V0 != 1: no skip
    assert_eq!(cpu.pc(), base + 2);
    interp(&mut cpu, 0x4001); // V0 != 1: skip
    assert_eq!(cpu.pc(), base + 4);
    interp(&mut cpu, 0x5010); // V0 == V1: skip
    assert_eq!(cpu.pc(), base + 6);
    interp(&mut cpu, 0x9010); // V0 == V1: no skip
    assert_eq!(cpu.pc(), base + 6);
    interp(&mut cpu, 0x6105); // V1 := 5
    interp(&mut cpu, 0x9010); // now V0 != V1: skip
    assert_eq!(cpu.pc(), base + 8);
}

#[test]
fn key_skips_and_wait() {
    let mut keyboard = TestKeyboard::idle();
    keyboard.pressed_keys[4] = true;
    keyboard.next_key = 5;
    let (mut cpu, _) = cpu_with(keyboard, 0, 11);
    cpu.load(&[]);
    let base = cpu.pc();
    interp(&mut cpu, 0x6004); // V0 := 4
    interp(&mut cpu, 0xE09E); // key 4 pressed: skip
    assert_eq!(cpu.pc(), base + 2);
    interp(&mut cpu, 0xE0A1); // key 4 pressed: no skip
    assert_eq!(cpu.pc(), base + 2);
    interp(&mut cpu, 0x6107); // V1 := 7
    interp(&mut cpu, 0xE19E); // key 7 not pressed: no skip
    assert_eq!(cpu.pc(), base + 2);
    interp(&mut cpu, 0xE1A1); // key 7 not pressed: skip
    assert_eq!(cpu.pc(), base + 4);
    interp(&mut cpu, 0xF20A); // wait for key
    assert_eq!(cpu.reg(2), 5);
}

#[test]
fn random_is_masked() {
    let mut keyboard = TestKeyboard::idle();
    keyboard.next_key = 0;
    let (mut cpu, _) = cpu_with(keyboard, 0xAA, 11);
    cpu.load(&[]);
    interp(&mut cpu, 0xC0F0); // V0 := random & 0xF0
    assert_eq!(cpu.reg(0), 0xA0);
    interp(&mut cpu, 0xC10F);
    assert_eq!(cpu.reg(1), 0x0A);
}

#[test]
fn index_ops() {
    let mut cpu = fresh_cpu();
    cpu.load(&[]);
    interp(&mut cpu, 0xAFFF);
    assert_eq!(cpu.index_reg(), 0xFFF);
    interp(&mut cpu, 0x60FF); // V0 := 255
    interp(&mut cpu, 0xF01E); // I += 255
    assert_eq!(cpu.index_reg(), 0xFFF + 255);
    // The index addition is a 16-bit add: it wraps modulo 65536.
    for _ in 0..256 {
        interp(&mut cpu, 0xF01E);
    }
    assert_eq!(cpu.index_reg(), 4094); // (4095 + 255 + 255 * 256) mod 65536
    interp(&mut cpu, 0x6007); // V0 := 7
    interp(&mut cpu, 0xF029); // I := 5 * V0, the glyph of 7
    assert_eq!(cpu.index_reg(), 35);
}

#[test]
fn register_block_transfers() {
    let mut cpu = fresh_cpu();
    cpu.load(&[]);
    interp(&mut cpu, 0x6011); // V0 := 0x11
    interp(&mut cpu, 0x6122); // V1 := 0x22
    interp(&mut cpu, 0x6F33); // V15 := 0x33
    interp(&mut cpu, 0xA300); // I := 0x300
    interp(&mut cpu, 0xF055); // store V0..V15
    assert_eq!(cpu.heap_byte(0x300), 0x11);
    assert_eq!(cpu.heap_byte(0x301), 0x22);
    assert_eq!(cpu.heap_byte(0x30F), 0x33);
    interp(&mut cpu, 0x6000);
    interp(&mut cpu, 0x6100);
    interp(&mut cpu, 0x6F00);
    interp(&mut cpu, 0xF065); // load them back
    assert_eq!(cpu.reg(0), 0x11);
    assert_eq!(cpu.reg(1), 0x22);
    assert_eq!(cpu.reg(15), 0x33);
}

#[test]
fn invalid_instructions_fault() {
    let mut cpu = fresh_cpu();
    cpu.load(&[]);
    assert_eq!(
        cpu.interpret(Instr::new(0x800F)),
        Err(Fault::InvalidInstruction(0x800F))
    );
    assert_eq!(
        cpu.interpret(Instr::new(0x5011)),
        Err(Fault::InvalidInstruction(0x5011))
    );
    assert_eq!(
        cpu.interpret(Instr::new(0x9013)),
        Err(Fault::InvalidInstruction(0x9013))
    );
    assert_eq!(
        cpu.interpret(Instr::new(0xE0FF)),
        Err(Fault::InvalidInstruction(0xE0FF))
    );
    assert_eq!(
        cpu.interpret(Instr::new(0xF0FF)),
        Err(Fault::InvalidInstruction(0xF0FF))
    );
    // A faulting instruction leaves the machine untouched.
    assert_eq!(cpu.pc(), 0x200);
}

#[test]
fn sys_opcode_is_ignored() {
    let mut cpu = fresh_cpu();
    cpu.load(&[]);
    let base = cpu.pc();
    interp(&mut cpu, 0x0123);
    assert_eq!(cpu.pc(), base);
}

#[test]
fn stack_limits_fault() {
    let mut cpu = fresh_cpu();
    cpu.load(&[]);
    assert_eq!(cpu.interpret(Instr::new(0x00EE)), Err(Fault::StackUnderflow));
    for _ in 0..16 {
        interp(&mut cpu, 0x2200);
    }
    assert_eq!(cpu.stack_depth(), 16);
    assert_eq!(cpu.interpret(Instr::new(0x2200)), Err(Fault::StackOverflow));
    assert_eq!(cpu.stack_depth(), 16);
}

#[test]
fn memory_bounds_fault() {
    let mut cpu = fresh_cpu();
    cpu.load(&[]);
    interp(&mut cpu, 0xAFFE); // I := 4094
    assert_eq!(cpu.interpret(Instr::new(0xF033)), Err(Fault::OutOfBounds));
    assert_eq!(cpu.interpret(Instr::new(0xF055)), Err(Fault::OutOfBounds));
    assert_eq!(cpu.interpret(Instr::new(0xF065)), Err(Fault::OutOfBounds));
    assert_eq!(cpu.interpret(Instr::new(0xD013)), Err(Fault::OutOfBounds));
    interp(&mut cpu, 0xAFF0); // I := 4080: the 16 registers just fit
    interp(&mut cpu, 0xF055);
    assert_eq!(cpu.heap_byte(4095), 0);
}

#[test]
fn program_counter_overrun_faults() {
    let mut cpu = fresh_cpu();
    cpu.load(&[]);
    interp(&mut cpu, 0x1FFE); // jump to 4094
    cpu.step().unwrap(); // executes the zero word there, a no-op
    assert_eq!(cpu.pc(), 4096);
    assert_eq!(cpu.step(), Err(Fault::OutOfBounds));
}

#[test]
fn power_off_stops_the_loop() {
    let mut keyboard = TestKeyboard::idle();
    keyboard.power_off_countdown = 0;
    let (mut cpu, _) = cpu_with(keyboard, 0, 1);
    cpu.load(&[]);
    // The clock starts at the deadline, so cycles run until the deadline
    // passes the frozen clock; the first sleep then sees power-off.
    cpu.run().unwrap();
    assert_eq!(cpu.cycle_count(), 1);
}

#[test]
fn fresh_screen_is_dark() {
    let screen = Screen::new();
    for ix in 0..(64 * 32) {
        assert!(!screen.pixel(ix));
    }
}

#[test]
fn cycle_cadence_tracks_the_clock() {
    // With clock multiplier 11 the cycle rate is 60 * 11 = 660 cycles per
    // second, so 660 paced cycles take one simulated second, within the
    // one-millisecond sleep granularity.
    let (clock, time) = FakeClock::new();
    let mut cpu = koro8::cpu::new(
        NullDisplay,
        TestKeyboard::idle(),
        TestBuzzer { started: Rc::new(Cell::new(0)) },
        clock,
        FixedRandom { val: 0 },
        11,
    );
    cpu.load(&[]);
    cpu.execute(660).unwrap();
    assert_eq!(cpu.cycle_count(), 660);
    let elapsed = time.get();
    assert!(elapsed >= 998_000_000, "cycles ran too fast: {} ns", elapsed);
    assert!(elapsed <= 1_003_000_000, "cycles ran too slow: {} ns", elapsed);
}
