//! The CPU engine: registers, memory, stack, timers, program counter,
//! and the fetch-decode-execute cycle over the 35-instruction set.
//!
//! `step_spec` is the mathematical definition of one decoded
//! instruction's effect; the executable interpreter is proved equal to
//! it.  Where a malformed program would address memory, the stack or
//! the keypad out of range — conditions the CHIP-8 design leaves
//! undefined — the instruction is a reported no-op: the machine state,
//! program counter included, is left unchanged, exactly as for an
//! unrecognized opcode.

use crate::display::{draw_collision, draw_result, Display};
use crate::keypad::Keypad;
use vstd::prelude::*;

verus! {

/// Size of addressable memory.
pub const MEM_SIZE: usize = 4096;

/// Number of general-purpose registers.
pub const NUM_REGS: usize = 16;

/// Depth of the call stack.
pub const STACK_SIZE: usize = 16;

/// Address where loaded programs begin.
pub const PROGRAM_START: usize = 0x200;

/// The mathematical model of the whole machine: every register, cell
/// and flag as a plain value.
#[verifier::ext_equal]
pub ghost struct CpuState {
    pub memory: Seq<u8>,
    pub v: Seq<u8>,
    pub index: u16,
    pub program_counter: u16,
    pub delay_timer: u8,
    pub sound_timer: u8,
    pub stack: Seq<u16>,
    pub stack_pointer: u8,
    pub draw_flag: bool,
    pub keys: Seq<bool>,
    pub screen: Seq<u8>,
}

impl CpuState {
    /// Dimensions of every component, and pixels constrained to 0/1.
    pub open spec fn wf(self) -> bool {
        &&& self.memory.len() == MEM_SIZE
        &&& self.v.len() == NUM_REGS
        &&& self.stack.len() == STACK_SIZE
        &&& self.stack_pointer <= STACK_SIZE
        &&& self.keys.len() == crate::keypad::NUM_KEYS
        &&& self.screen.len() == crate::display::GRID
        &&& forall|p: int|
            0 <= p < crate::display::GRID ==> self.screen[p] == 0 || self.screen[p] == 1
    }
}

/// Wrapping 16-bit addition, the program counter's arithmetic.
pub open spec fn wadd16(a: u16, b: u16) -> u16 {
    if a + b > 0xFFFF {
        (a + b - 0x10000) as u16
    } else {
        (a + b) as u16
    }
}

/// Wrapping 8-bit addition, the registers' arithmetic.
pub open spec fn wadd8(a: u8, b: u8) -> u8 {
    if a + b > 0xFF {
        (a + b - 0x100) as u8
    } else {
        (a + b) as u8
    }
}

/// Wrapping 8-bit subtraction, the registers' arithmetic.
pub open spec fn wsub8(a: u8, b: u8) -> u8 {
    if a - b < 0 {
        (a - b + 0x100) as u8
    } else {
        (a - b) as u8
    }
}

/// The lowest-numbered key at or above `i` that is currently held.
pub open spec fn first_held(keys: Seq<bool>, i: int) -> Option<u8>
    decreases 16 - i,
{
    if i < 0 || i >= 16 {
        None
    } else if keys[i] {
        Some(i as u8)
    } else {
        first_held(keys, i + 1)
    }
}

/// `mem` with `bytes` copied in verbatim starting at address `at`.
pub open spec fn load_bytes(mem: Seq<u8>, at: int, bytes: Seq<u8>) -> Seq<u8> {
    Seq::new(
        mem.len(),
        |i: int|
            if at <= i < at + bytes.len() {
                bytes[i - at]
            } else {
                mem[i]
            },
    )
}

/// The big-endian 16-bit opcode at the program counter.
pub open spec fn fetch(s: CpuState) -> u16 {
    ((s.memory[s.program_counter as int] as u16) << 8u16) | (s.memory[s.program_counter as int
        + 1] as u16)
}

/// Whether the opcode matches one of the 35 instruction patterns.
pub open spec fn recognized(op: u16) -> bool {
    let h = op >> 12u16;
    let y = (op >> 4u16) & 0xF;
    let l = op & 0xF;
    if h == 0x0 {
        op == 0x00E0 || op == 0x00EE
    } else if h == 0x5 || h == 0x9 {
        l == 0
    } else if h == 0x8 {
        l == 0 || l == 1 || l == 2 || l == 3 || l == 4 || l == 5 || l == 6 || l == 7 || l == 0xE
    } else if h == 0xE {
        (y == 0x9 && l == 0xE) || (y == 0xA && l == 1)
    } else if h == 0xF {
        (y == 0x0 && l == 0x7) || (y == 0x0 && l == 0xA) || (y == 0x1 && l == 0x5) || (y == 0x1
            && l == 0x8) || (y == 0x1 && l == 0xE) || (y == 0x2 && l == 0x9) || (y == 0x3 && l
            == 0x3) || (y == 0x5 && l == 0x5) || (y == 0x6 && l == 0x5)
    } else {
        true
    }
}

/// The machine state after executing one decoded opcode; `rnd` is the
/// byte the random source supplied, consulted only by the CXNN arm.
/// Timers are not touched here — they tick once per cycle, after the
/// instruction.
pub open spec fn step_spec(s: CpuState, op: u16, rnd: u8) -> CpuState {
    let h = op >> 12u16;
    let x = ((op >> 8u16) & 0xF) as int;
    let y = ((op >> 4u16) & 0xF) as int;
    let vx = s.v[x];
    let vy = s.v[y];
    let nnn = op & 0xFFF;
    let nn = (op & 0xFF) as u8;
    let n = (op & 0xF) as int;
    let l = op & 0xF;
    if h == 0x0 {
        if op == 0x00E0 {
            CpuState {
                screen: crate::display::blank_screen(),
                program_counter: wadd16(s.program_counter, 2),
                ..s
            }
        } else if op == 0x00EE {
            if s.stack_pointer == 0 {
                s
            } else {
                CpuState {
                    stack_pointer: (s.stack_pointer - 1) as u8,
                    program_counter: wadd16(s.stack[s.stack_pointer - 1], 2),
                    ..s
                }
            }
        } else {
            s
        }
    } else if h == 0x1 {
        CpuState { program_counter: nnn, ..s }
    } else if h == 0x2 {
        if s.stack_pointer >= 16 {
            s
        } else {
            CpuState {
                stack: s.stack.update(s.stack_pointer as int, s.program_counter),
                stack_pointer: (s.stack_pointer + 1) as u8,
                program_counter: nnn,
                ..s
            }
        }
    } else if h == 0x3 {
        CpuState {
            program_counter: wadd16(
                s.program_counter,
                if vx == nn {
                    4
                } else {
                    2
                },
            ),
            ..s
        }
    } else if h == 0x4 {
        CpuState {
            program_counter: wadd16(
                s.program_counter,
                if vx != nn {
                    4
                } else {
                    2
                },
            ),
            ..s
        }
    } else if h == 0x5 {
        if l == 0 {
            CpuState {
                program_counter: wadd16(
                    s.program_counter,
                    if vx == vy {
                        4
                    } else {
                        2
                    },
                ),
                ..s
            }
        } else {
            s
        }
    } else if h == 0x6 {
        CpuState { v: s.v.update(x, nn), program_counter: wadd16(s.program_counter, 2), ..s }
    } else if h == 0x7 {
        CpuState {
            v: s.v.update(x, wadd8(vx, nn)),
            program_counter: wadd16(s.program_counter, 2),
            ..s
        }
    } else if h == 0x8 {
        if l == 0x0 {
            CpuState { v: s.v.update(x, vy), program_counter: wadd16(s.program_counter, 2), ..s }
        } else if l == 0x1 {
            CpuState {
                v: s.v.update(x, vx | vy),
                program_counter: wadd16(s.program_counter, 2),
                ..s
            }
        } else if l == 0x2 {
            CpuState {
                v: s.v.update(x, vx & vy),
                program_counter: wadd16(s.program_counter, 2),
                ..s
            }
        } else if l == 0x3 {
            CpuState {
                v: s.v.update(x, vx ^ vy),
                program_counter: wadd16(s.program_counter, 2),
                ..s
            }
        } else if l == 0x4 {
            CpuState {
                v: s.v.update(
                    0xF,
                    if vx + vy > 0xFF {
                        1u8
                    } else {
                        0u8
                    },
                ).update(x, wadd8(vx, vy)),
                program_counter: wadd16(s.program_counter, 2),
                ..s
            }
        } else if l == 0x5 {
            CpuState {
                v: s.v.update(
                    0xF,
                    if vx < vy {
                        0u8
                    } else {
                        1u8
                    },
                ).update(x, wsub8(vx, vy)),
                program_counter: wadd16(s.program_counter, 2),
                ..s
            }
        } else if l == 0x6 {
            CpuState {
                v: s.v.update(0xF, vx & 1).update(x, vx >> 1u8),
                program_counter: wadd16(s.program_counter, 2),
                ..s
            }
        } else if l == 0x7 {
            CpuState {
                v: s.v.update(
                    0xF,
                    if vy < vx {
                        0u8
                    } else {
                        1u8
                    },
                ).update(x, wsub8(vy, vx)),
                program_counter: wadd16(s.program_counter, 2),
                ..s
            }
        } else if l == 0xE {
            CpuState {
                v: s.v.update(0xF, vx & 128).update(x, vx << 1u8),
                program_counter: wadd16(s.program_counter, 2),
                ..s
            }
        } else {
            s
        }
    } else if h == 0x9 {
        if l == 0 {
            CpuState {
                program_counter: wadd16(
                    s.program_counter,
                    if vx != vy {
                        4
                    } else {
                        2
                    },
                ),
                ..s
            }
        } else {
            s
        }
    } else if h == 0xA {
        CpuState { index: nnn, program_counter: wadd16(s.program_counter, 2), ..s }
    } else if h == 0xB {
        CpuState { program_counter: (nnn + s.v[0]) as u16, ..s }
    } else if h == 0xC {
        CpuState { v: s.v.update(x, rnd & nn), program_counter: wadd16(s.program_counter, 2), ..s }
    } else if h == 0xD {
        if s.index + n <= MEM_SIZE {
            let sprite = s.memory.subrange(s.index as int, s.index as int + n);
            CpuState {
                screen: draw_result(s.screen, vx as int, vy as int, sprite),
                v: s.v.update(
                    0xF,
                    if draw_collision(s.screen, vx as int, vy as int, sprite) {
                        1u8
                    } else {
                        0u8
                    },
                ),
                draw_flag: true,
                program_counter: wadd16(s.program_counter, 2),
                ..s
            }
        } else {
            s
        }
    } else if h == 0xE {
        if y == 0x9 && l == 0xE {
            if vx < 16 {
                CpuState {
                    program_counter: wadd16(
                        s.program_counter,
                        if s.keys[vx as int] {
                            4
                        } else {
                            2
                        },
                    ),
                    ..s
                }
            } else {
                s
            }
        } else if y == 0xA && l == 1 {
            if vx < 16 {
                CpuState {
                    program_counter: wadd16(
                        s.program_counter,
                        if !s.keys[vx as int] {
                            4
                        } else {
                            2
                        },
                    ),
                    ..s
                }
            } else {
                s
            }
        } else {
            s
        }
    } else if h == 0xF {
        if y == 0x0 && l == 0x7 {
            CpuState {
                v: s.v.update(x, s.delay_timer),
                program_counter: wadd16(s.program_counter, 2),
                ..s
            }
        } else if y == 0x0 && l == 0xA {
            match first_held(s.keys, 0) {
                Some(k) => CpuState {
                    v: s.v.update(x, k),
                    program_counter: wadd16(s.program_counter, 2),
                    ..s
                },
                None => s,
            }
        } else if y == 0x1 && l == 0x5 {
            CpuState { delay_timer: vx, program_counter: wadd16(s.program_counter, 2), ..s }
        } else if y == 0x1 && l == 0x8 {
            CpuState { sound_timer: vx, program_counter: wadd16(s.program_counter, 2), ..s }
        } else if y == 0x1 && l == 0xE {
            CpuState {
                v: s.v.update(
                    0xF,
                    if s.index + vx > 0xFFF {
                        1u8
                    } else {
                        0u8
                    },
                ),
                index: wadd16(s.index, vx as u16),
                program_counter: wadd16(s.program_counter, 2),
                ..s
            }
        } else if y == 0x2 && l == 0x9 {
            CpuState {
                index: (vx * 5) as u16,
                program_counter: wadd16(s.program_counter, 2),
                ..s
            }
        } else if y == 0x3 && l == 0x3 {
            if s.index + 3 <= MEM_SIZE {
                CpuState {
                    memory: s.memory.update(s.index as int, vx / 100).update(
                        s.index as int + 1,
                        (vx / 10) % 10,
                    ).update(s.index as int + 2, (vx % 100) % 10),
                    program_counter: wadd16(s.program_counter, 2),
                    ..s
                }
            } else {
                s
            }
        } else if y == 0x5 && l == 0x5 {
            if s.index + x < MEM_SIZE {
                CpuState {
                    memory: Seq::new(
                        MEM_SIZE as nat,
                        |q: int|
                            if s.index <= q <= s.index + x {
                                s.v[q - s.index]
                            } else {
                                s.memory[q]
                            },
                    ),
                    program_counter: wadd16(s.program_counter, 2),
                    ..s
                }
            } else {
                s
            }
        } else if y == 0x6 && l == 0x5 {
            if s.index + x < MEM_SIZE {
                CpuState {
                    v: Seq::new(
                        NUM_REGS as nat,
                        |q: int|
                            if 0 <= q <= x {
                                s.memory[s.index + q]
                            } else {
                                s.v[q]
                            },
                    ),
                    program_counter: wadd16(s.program_counter, 2),
                    ..s
                }
            } else {
                s
            }
        } else {
            s
        }
    } else {
        s
    }
}

/// A timer counts down by one per cycle until it reaches zero.
pub open spec fn tick_timer(t: u8) -> u8 {
    if t > 0 {
        (t - 1) as u8
    } else {
        0
    }
}

/// One whole cycle: fetch, execute, then tick both timers.
pub open spec fn cycle_result(s: CpuState, rnd: u8) -> CpuState {
    let s1 = step_spec(s, fetch(s), rnd);
    CpuState {
        delay_timer: tick_timer(s1.delay_timer),
        sound_timer: tick_timer(s1.sound_timer),
        ..s1
    }
}

/// The audible cue fires exactly on the cycle whose timer tick takes
/// the sound timer from 1 to 0.
pub open spec fn cycle_beeps(s: CpuState, rnd: u8) -> bool {
    step_spec(s, fetch(s), rnd).sound_timer == 1
}

/// Nibble and field bounds of the decoded opcode.
proof fn lemma_decode_bounds(op: u16)
    by (bit_vector)
    ensures
        (op >> 12u16) < 16,
        ((op >> 8u16) & 0xF) < 16,
        ((op >> 4u16) & 0xF) < 16,
        (op & 0xF) < 16,
        (op & 0xFF) < 256,
        (op & 0xFFF) < 4096,
{
}

/// The CHIP-8 machine.
pub struct CPU {
    pub memory: Vec<u8>,
    pub v: Vec<u8>,
    pub index: u16,
    pub program_counter: u16,
    pub delay_timer: u8,
    pub sound_timer: u8,
    pub stack: Vec<u16>,
    pub stack_pointer: u8,
    pub draw_flag: bool,
    pub keypad: Keypad,
    pub display: Display,
}

impl View for CPU {
    type V = CpuState;

    open spec fn view(&self) -> CpuState {
        CpuState {
            memory: self.memory@,
            v: self.v@,
            index: self.index,
            program_counter: self.program_counter,
            delay_timer: self.delay_timer,
            sound_timer: self.sound_timer,
            stack: self.stack@,
            stack_pointer: self.stack_pointer,
            draw_flag: self.draw_flag,
            keys: self.keypad@,
            screen: self.display@,
        }
    }
}

impl CPU {
    pub open spec fn wf(&self) -> bool {
        self@.wf()
    }

    /// The machine at power-on: everything zeroed, the program counter
    /// at the start of program memory, no key held, no pixel lit.
    pub fn new() -> (cpu: CPU)
        ensures
            cpu.wf(),
            cpu@.memory == Seq::new(MEM_SIZE as nat, |i: int| 0u8),
            cpu@.v == Seq::new(NUM_REGS as nat, |i: int| 0u8),
            cpu@.stack == Seq::new(STACK_SIZE as nat, |i: int| 0u16),
            cpu@.index == 0,
            cpu@.program_counter == PROGRAM_START,
            cpu@.delay_timer == 0,
            cpu@.sound_timer == 0,
            cpu@.stack_pointer == 0,
            !cpu@.draw_flag,
            cpu@.keys == Seq::new(crate::keypad::NUM_KEYS as nat, |i: int| false),
            cpu@.screen == crate::display::blank_screen(),
    {
        let mut memory: Vec<u8> = Vec::new();
        let mut i: usize = 0;
        while i < MEM_SIZE
            invariant
                i <= MEM_SIZE,
                memory@.len() == i,
                forall|q: int| 0 <= q < i ==> memory@[q] == 0,
            decreases MEM_SIZE - i,
        {
            memory.push(0);
            i += 1;
        }
        let mut v: Vec<u8> = Vec::new();
        let mut j: usize = 0;
        while j < NUM_REGS
            invariant
                j <= NUM_REGS,
                v@.len() == j,
                forall|q: int| 0 <= q < j ==> v@[q] == 0,
            decreases NUM_REGS - j,
        {
            v.push(0);
            j += 1;
        }
        let mut stack: Vec<u16> = Vec::new();
        let mut k: usize = 0;
        while k < STACK_SIZE
            invariant
                k <= STACK_SIZE,
                stack@.len() == k,
                forall|q: int| 0 <= q < k ==> stack@[q] == 0,
            decreases STACK_SIZE - k,
        {
            stack.push(0);
            k += 1;
        }
        let cpu = CPU {
            memory,
            v,
            index: 0,
            program_counter: 0x200,
            delay_timer: 0,
            sound_timer: 0,
            stack,
            stack_pointer: 0,
            draw_flag: false,
            keypad: Keypad::new(),
            display: Display::new(),
        };
        proof {
            assert(cpu@.memory =~= Seq::new(MEM_SIZE as nat, |i: int| 0u8));
            assert(cpu@.v =~= Seq::new(NUM_REGS as nat, |i: int| 0u8));
            assert(cpu@.stack =~= Seq::new(STACK_SIZE as nat, |i: int| 0u16));
            assert(cpu@.keys =~= Seq::new(crate::keypad::NUM_KEYS as nat, |i: int| false));
        }
        cpu
    }

    /// Executes one decoded opcode deterministically: `rnd` stands in
    /// for the random source, consulted only by the CXNN instruction.
    pub fn step_with_random(&mut self, opcode: u16, rnd: u8)
        requires
            old(self).wf(),
        ensures
            final(self).wf(),
            final(self)@ == step_spec(old(self)@, opcode, rnd),
    {
        proof {
            lemma_decode_bounds(opcode);
        }
        let ghost s0 = self@;
        let h = opcode >> 12u16;
        let x = ((opcode >> 8u16) & 0xF) as usize;
        let y = ((opcode >> 4u16) & 0xF) as usize;
        let vx = self.v[x];
        let vy = self.v[y];
        let nnn = opcode & 0xFFF;
        let nn = (opcode & 0xFF) as u8;
        let n = (opcode & 0xF) as usize;
        let l = opcode & 0xF;
        if h == 0x0 {
            if opcode == 0x00E0 {
                self.display.clear_screen();
                self.program_counter = self.program_counter.wrapping_add(2);
            } else if opcode == 0x00EE {
                if self.stack_pointer > 0 {
                    self.stack_pointer = self.stack_pointer - 1;
                    self.program_counter = self.stack[self.stack_pointer as usize].wrapping_add(2);
                }
            }
        } else if h == 0x1 {
            self.program_counter = nnn;
        } else if h == 0x2 {
            if self.stack_pointer < 16 {
                self.stack[self.stack_pointer as usize] = self.program_counter;
                self.stack_pointer = self.stack_pointer + 1;
                self.program_counter = nnn;
            }
        } else if h == 0x3 {
            if vx == nn {
                self.program_counter = self.program_counter.wrapping_add(4);
            } else {
                self.program_counter = self.program_counter.wrapping_add(2);
            }
        } else if h == 0x4 {
            if vx != nn {
                self.program_counter = self.program_counter.wrapping_add(4);
            } else {
                self.program_counter = self.program_counter.wrapping_add(2);
            }
        } else if h == 0x5 {
            if l == 0 {
                if vx == vy {
                    self.program_counter = self.program_counter.wrapping_add(4);
                } else {
                    self.program_counter = self.program_counter.wrapping_add(2);
                }
            }
        } else if h == 0x6 {
            self.v[x] = nn;
            self.program_counter = self.program_counter.wrapping_add(2);
        } else if h == 0x7 {
            self.v[x] = vx.wrapping_add(nn);
            self.program_counter = self.program_counter.wrapping_add(2);
        } else if h == 0x8 {
            if l == 0x0 {
                self.v[x] = vy;
                self.program_counter = self.program_counter.wrapping_add(2);
            } else if l == 0x1 {
                self.v[x] = vx | vy;
                self.program_counter = self.program_counter.wrapping_add(2);
            } else if l == 0x2 {
                self.v[x] = vx & vy;
                self.program_counter = self.program_counter.wrapping_add(2);
            } else if l == 0x3 {
                self.v[x] = vx ^ vy;
                self.program_counter = self.program_counter.wrapping_add(2);
            } else if l == 0x4 {
                self.v[15] = if (vx as u16) + (vy as u16) > 0xFF {
                    1
                } else {
                    0
                };
                self.v[x] = vx.wrapping_add(vy);
                self.program_counter = self.program_counter.wrapping_add(2);
            } else if l == 0x5 {
                self.v[15] = if vx < vy {
                    0
                } else {
                    1
                };
                self.v[x] = vx.wrapping_sub(vy);
                self.program_counter = self.program_counter.wrapping_add(2);
            } else if l == 0x6 {
                self.v[15] = vx & 1;
                self.v[x] = vx >> 1u8;
                self.program_counter = self.program_counter.wrapping_add(2);
            } else if l == 0x7 {
                self.v[15] = if vy < vx {
                    0
                } else {
                    1
                };
                self.v[x] = vy.wrapping_sub(vx);
                self.program_counter = self.program_counter.wrapping_add(2);
            } else if l == 0xE {
                self.v[15] = vx & 128;
                self.v[x] = vx << 1u8;
                self.program_counter = self.program_counter.wrapping_add(2);
            }
        } else if h == 0x9 {
            if l == 0 {
                if vx != vy {
                    self.program_counter = self.program_counter.wrapping_add(4);
                } else {
                    self.program_counter = self.program_counter.wrapping_add(2);
                }
            }
        } else if h == 0xA {
            self.index = nnn;
            self.program_counter = self.program_counter.wrapping_add(2);
        } else if h == 0xB {
            self.program_counter = nnn + (self.v[0] as u16);
        } else if h == 0xC {
            self.v[x] = rnd & nn;
            self.program_counter = self.program_counter.wrapping_add(2);
        } else if h == 0xD {
            if (self.index as usize) + n <= MEM_SIZE {
                let idx = self.index as usize;
                let mut sprite: Vec<u8> = Vec::new();
                let mut k: usize = 0;
                while k < n
                    invariant
                        self@ == s0,
                        s0.wf(),
                        idx == s0.index,
                        idx + n <= MEM_SIZE,
                        k <= n,
                        sprite@ == s0.memory.subrange(idx as int, idx as int + k as int),
                    decreases n - k,
                {
                    sprite.push(self.memory[idx + k]);
                    proof {
                        assert(sprite@ =~= s0.memory.subrange(
                            idx as int,
                            idx as int + k as int + 1,
                        ));
                    }
                    k += 1;
                }
                let collision = self.display.draw(vx as usize, vy as usize, sprite.as_slice());
                self.v[15] = collision;
                self.draw_flag = true;
                self.program_counter = self.program_counter.wrapping_add(2);
            }
        } else if h == 0xE {
            if y == 0x9 && l == 0xE {
                if vx < 16 {
                    if self.keypad.keys[vx as usize] {
                        self.program_counter = self.program_counter.wrapping_add(4);
                    } else {
                        self.program_counter = self.program_counter.wrapping_add(2);
                    }
                }
            } else if y == 0xA && l == 1 {
                if vx < 16 {
                    if !self.keypad.keys[vx as usize] {
                        self.program_counter = self.program_counter.wrapping_add(4);
                    } else {
                        self.program_counter = self.program_counter.wrapping_add(2);
                    }
                }
            }
        } else if h == 0xF {
            if y == 0x0 && l == 0x7 {
                self.v[x] = self.delay_timer;
                self.program_counter = self.program_counter.wrapping_add(2);
            } else if y == 0x0 && l == 0xA {
                let mut key_found: usize = 16;
                let mut k: usize = 0;
                while k < 16
                    invariant
                        self@ == s0,
                        s0.wf(),
                        k <= 16,
                        key_found <= 16,
                        key_found == 16 ==> first_held(s0.keys, 0) == first_held(
                            s0.keys,
                            k as int,
                        ),
                        key_found < 16 ==> first_held(s0.keys, 0) == Some(key_found as u8),
                    decreases 16 - k,
                {
                    if key_found == 16 && self.keypad.keys[k] {
                        key_found = k;
                    }
                    k += 1;
                }
                if key_found < 16 {
                    self.v[x] = key_found as u8;
                    self.program_counter = self.program_counter.wrapping_add(2);
                }
            } else if y == 0x1 && l == 0x5 {
                self.delay_timer = vx;
                self.program_counter = self.program_counter.wrapping_add(2);
            } else if y == 0x1 && l == 0x8 {
                self.sound_timer = vx;
                self.program_counter = self.program_counter.wrapping_add(2);
            } else if y == 0x1 && l == 0xE {
                self.v[15] = if (self.index as u32) + (vx as u32) > 0xFFF {
                    1
                } else {
                    0
                };
                self.index = self.index.wrapping_add(vx as u16);
                self.program_counter = self.program_counter.wrapping_add(2);
            } else if y == 0x2 && l == 0x9 {
                self.index = (vx as u16) * 5;
                self.program_counter = self.program_counter.wrapping_add(2);
            } else if y == 0x3 && l == 0x3 {
                if (self.index as usize) + 3 <= MEM_SIZE {
                    let idx = self.index as usize;
                    self.memory[idx] = vx / 100;
                    self.memory[idx + 1] = (vx / 10) % 10;
                    self.memory[idx + 2] = (vx % 100) % 10;
                    self.program_counter = self.program_counter.wrapping_add(2);
                }
            } else if y == 0x5 && l == 0x5 {
                if (self.index as usize) + x < MEM_SIZE {
                    let idx = self.index as usize;
                    let mut k: usize = 0;
                    while k <= x
                        invariant
                            s0.wf(),
                            x < 16,
                            idx == s0.index,
                            idx + x < MEM_SIZE,
                            k <= x + 1,
                            self@ == (CpuState { memory: self@.memory, ..s0 }),
                            self@.memory.len() == MEM_SIZE,
                            forall|q: int|
                                0 <= q < MEM_SIZE ==> self@.memory[q] == (if idx <= q < idx + k {
                                    s0.v[q - idx]
                                } else {
                                    s0.memory[q]
                                }),
                        decreases x + 1 - k,
                    {
                        self.memory[idx + k] = self.v[k];
                        k += 1;
                    }
                    self.program_counter = self.program_counter.wrapping_add(2);
                    proof {
                        assert(self@.memory =~= Seq::new(
                            MEM_SIZE as nat,
                            |q: int|
                                if s0.index <= q <= s0.index + ((opcode >> 8u16) & 0xF) as int {
                                    s0.v[q - s0.index]
                                } else {
                                    s0.memory[q]
                                },
                        ));
                    }
                }
            } else if y == 0x6 && l == 0x5 {
                if (self.index as usize) + x < MEM_SIZE {
                    let idx = self.index as usize;
                    let mut k: usize = 0;
                    while k <= x
                        invariant
                            s0.wf(),
                            x < 16,
                            idx == s0.index,
                            idx + x < MEM_SIZE,
                            k <= x + 1,
                            self@ == (CpuState { v: self@.v, ..s0 }),
                            self@.v.len() == NUM_REGS,
                            forall|q: int|
                                0 <= q < NUM_REGS ==> self@.v[q] == (if 0 <= q < k {
                                    s0.memory[idx + q]
                                } else {
                                    s0.v[q]
                                }),
                        decreases x + 1 - k,
                    {
                        self.v[k] = self.memory[idx + k];
                        k += 1;
                    }
                    self.program_counter = self.program_counter.wrapping_add(2);
                    proof {
                        assert(self@.v =~= Seq::new(
                            NUM_REGS as nat,
                            |q: int|
                                if 0 <= q <= ((opcode >> 8u16) & 0xF) as int {
                                    s0.memory[s0.index + q]
                                } else {
                                    s0.v[q]
                                },
                        ));
                    }
                }
            }
        }
        proof {
            assert(self@ =~= step_spec(s0, opcode, rnd));
        }
    }

    /// Decodes and executes one opcode, drawing the CXNN random byte
    /// from the host's random source.  Returns the opcode when it
    /// matches no instruction pattern, so the caller can report it.
    fn process_opcode(&mut self, opcode: u16) -> (unrecognized: Option<u16>)
        requires
            old(self).wf(),
        ensures
            final(self).wf(),
            exists|r: u8| final(self)@ == step_spec(old(self)@, opcode, r),
            (opcode >> 12u16 != 0xC) ==> final(self)@ == step_spec(old(self)@, opcode, 0),
            unrecognized == (if recognized(opcode) {
                Option::<u16>::None
            } else {
                Option::<u16>::Some(opcode)
            }),
    {
        let rnd = if (opcode >> 12u16) == 0xC {
            random_byte()
        } else {
            0
        };
        self.step_with_random(opcode, rnd);
        proof {
            assert(final(self)@ == step_spec(old(self)@, opcode, rnd));
        }
        if opcode_recognized(opcode) {
            None
        } else {
            Some(opcode)
        }
    }

    /// One whole machine cycle: fetch the opcode at the program
    /// counter, execute it, then tick both timers.  The returned
    /// events tell the host to sound the audible cue or to report an
    /// unrecognized opcode.
    pub fn execute_cycle(&mut self) -> (events: CycleEvents)
        requires
            old(self).wf(),
            old(self).program_counter + 1 < MEM_SIZE,
        ensures
            final(self).wf(),
            exists|r: u8|
                final(self)@ == #[trigger] cycle_result(old(self)@, r) && events.beep
                    == cycle_beeps(old(self)@, r),
            (fetch(old(self)@) >> 12u16 != 0xC) ==> final(self)@ == cycle_result(old(self)@, 0)
                && events.beep == cycle_beeps(old(self)@, 0),
            events.unrecognized == (if recognized(fetch(old(self)@)) {
                Option::<u16>::None
            } else {
                Option::<u16>::Some(fetch(old(self)@))
            }),
    {
        let pc = self.program_counter as usize;
        let opcode = ((self.memory[pc] as u16) << 8u16) | (self.memory[pc + 1] as u16);
        proof {
            assert(opcode == fetch(old(self)@));
        }
        let unrecognized = self.process_opcode(opcode);
        let ghost s1 = self@;
        if self.delay_timer > 0 {
            self.delay_timer = self.delay_timer - 1;
        }
        let mut beep = false;
        if self.sound_timer > 0 {
            self.sound_timer = self.sound_timer - 1;
            if self.sound_timer == 0 {
                beep = true;
            }
        }
        proof {
            let r = choose|r: u8| s1 == step_spec(old(self)@, opcode, r);
            assert(self@ =~= cycle_result(old(self)@, r));
            if opcode >> 12u16 != 0xC {
                assert(self@ =~= cycle_result(old(self)@, 0));
            }
        }
        CycleEvents { beep, unrecognized }
    }

    /// Copies the 80-byte hexadecimal font into memory addresses
    /// 0x000 through 0x04F.
    pub fn load_fontset(&mut self)
        requires
            old(self).wf(),
        ensures
            final(self).wf(),
            final(self)@ == (CpuState {
                memory: load_bytes(old(self)@.memory, 0, font_set()),
                ..old(self)@
            }),
    {
        let ghost s0 = self@;
        let font = font_bytes();
        let mut i: usize = 0;
        while i < 80
            invariant
                s0.wf(),
                i <= 80,
                font@ == font_set(),
                self@ == (CpuState { memory: self@.memory, ..s0 }),
                self@.memory.len() == MEM_SIZE,
                forall|q: int|
                    0 <= q < MEM_SIZE ==> self@.memory[q] == (if 0 <= q < i {
                        font_set()[q]
                    } else {
                        s0.memory[q]
                    }),
            decreases 80 - i,
        {
            self.memory[i] = font[i];
            i += 1;
        }
        proof {
            assert(self@.memory =~= load_bytes(s0.memory, 0, font_set()));
            assert(self@ =~= (CpuState { memory: load_bytes(s0.memory, 0, font_set()), ..s0 }));
        }
    }

    /// Copies a program image verbatim into memory starting at
    /// address 0x200.  The image must fit below the end of memory.
    pub fn load_program(&mut self, program: &Vec<u8>)
        requires
            old(self).wf(),
            program@.len() <= MEM_SIZE - PROGRAM_START,
        ensures
            final(self).wf(),
            final(self)@ == (CpuState {
                memory: load_bytes(old(self)@.memory, PROGRAM_START as int, program@),
                ..old(self)@
            }),
    {
        let ghost s0 = self@;
        let len = program.len();
        let mut i: usize = 0;
        while i < len
            invariant
                s0.wf(),
                i <= len,
                len == program@.len() <= MEM_SIZE - PROGRAM_START,
                self@ == (CpuState { memory: self@.memory, ..s0 }),
                self@.memory.len() == MEM_SIZE,
                forall|q: int|
                    0 <= q < MEM_SIZE ==> self@.memory[q] == (if PROGRAM_START <= q
                        < PROGRAM_START + i {
                        program@[q - PROGRAM_START]
                    } else {
                        s0.memory[q]
                    }),
            decreases len - i,
        {
            self.memory[PROGRAM_START + i] = program[i];
            i += 1;
        }
        proof {
            assert(self@.memory =~= load_bytes(s0.memory, PROGRAM_START as int, program@));
            assert(self@ =~= (CpuState {
                memory: load_bytes(s0.memory, PROGRAM_START as int, program@),
                ..s0
            }));
        }
    }

    /// Replaces the keypad state with the flags the host's input layer
    /// collected; everything else is untouched.
    pub fn set_keys(&mut self, keys: Vec<bool>)
        requires
            old(self).wf(),
            keys@.len() == crate::keypad::NUM_KEYS,
        ensures
            final(self).wf(),
            final(self)@ == (CpuState { keys: keys@, ..old(self)@ }),
    {
        self.keypad.keys = keys;
        proof {
            assert(self@ =~= (CpuState { keys: self.keypad.keys@, ..old(self)@ }));
        }
    }
}

/// What one cycle asks of the host: sound the audible cue, and report
/// an opcode that matched no instruction pattern.
pub struct CycleEvents {
    pub beep: bool,
    pub unrecognized: Option<u16>,
}

/// Executable twin of `recognized`.
fn opcode_recognized(op: u16) -> (b: bool)
    ensures
        b == recognized(op),
{
    let h = op >> 12u16;
    let y = (op >> 4u16) & 0xF;
    let l = op & 0xF;
    if h == 0x0 {
        op == 0x00E0 || op == 0x00EE
    } else if h == 0x5 || h == 0x9 {
        l == 0
    } else if h == 0x8 {
        l == 0 || l == 1 || l == 2 || l == 3 || l == 4 || l == 5 || l == 6 || l == 7 || l == 0xE
    } else if h == 0xE {
        (y == 0x9 && l == 0xE) || (y == 0xA && l == 1)
    } else if h == 0xF {
        (y == 0x0 && l == 0x7) || (y == 0x0 && l == 0xA) || (y == 0x1 && l == 0x5) || (y == 0x1
            && l == 0x8) || (y == 0x1 && l == 0xE) || (y == 0x2 && l == 0x9) || (y == 0x3 && l
            == 0x3) || (y == 0x5 && l == 0x5) || (y == 0x6 && l == 0x5)
    } else {
        true
    }
}

/// The 80-byte font table: sixteen hexadecimal digit glyphs of five
/// bytes each, glyph `d` starting at offset `d * 5`.
pub open spec fn font_set() -> Seq<u8> {
    seq![
        0xF0u8, 0x90, 0x90, 0x90, 0xF0, 0x20, 0x60, 0x20, 0x20, 0x70, 0xF0, 0x10, 0xF0, 0x80,
        0xF0, 0xF0, 0x10, 0xF0, 0x10, 0xF0, 0x90, 0x90, 0xF0, 0x10, 0x10, 0xF0, 0x80, 0xF0, 0x10,
        0xF0, 0xF0, 0x80, 0xF0, 0x90, 0xF0, 0xF0, 0x10, 0x20, 0x40, 0x40, 0xF0, 0x90, 0xF0, 0x90,
        0xF0, 0xF0, 0x90, 0xF0, 0x10, 0xF0, 0xF0, 0x90, 0xF0, 0x90, 0x90, 0xE0, 0x90, 0xE0, 0x90,
        0xE0, 0xF0, 0x80, 0x80, 0x80, 0xF0, 0xE0, 0x90, 0x90, 0x90, 0xE0, 0xF0, 0x80, 0xF0, 0x80,
        0xF0, 0xF0, 0x80, 0xF0, 0x80, 0x80,
    ]
}

/// The font table as bytes.
pub fn font_bytes() -> (font: Vec<u8>)
    ensures
        font@ == font_set(),
{
    let font: Vec<u8> = vec![
        0xF0, 0x90, 0x90, 0x90, 0xF0, 0x20, 0x60, 0x20, 0x20, 0x70, 0xF0, 0x10, 0xF0, 0x80, 0xF0,
        0xF0, 0x10, 0xF0, 0x10, 0xF0, 0x90, 0x90, 0xF0, 0x10, 0x10, 0xF0, 0x80, 0xF0, 0x10, 0xF0,
        0xF0, 0x80, 0xF0, 0x90, 0xF0, 0xF0, 0x10, 0x20, 0x40, 0x40, 0xF0, 0x90, 0xF0, 0x90, 0xF0,
        0xF0, 0x90, 0xF0, 0x10, 0xF0, 0xF0, 0x90, 0xF0, 0x90, 0x90, 0xE0, 0x90, 0xE0, 0x90, 0xE0,
        0xF0, 0x80, 0x80, 0x80, 0xF0, 0xE0, 0x90, 0x90, 0x90, 0xE0, 0xF0, 0x80, 0xF0, 0x80, 0xF0,
        0xF0, 0x80, 0xF0, 0x80, 0x80,
    ];
    proof {
        assert(font@ =~= font_set());
    }
    font
}

/// Relies on rand::random: a byte drawn from the thread-local
/// generator, uniformly distributed over 0..=255.  Nothing can be
/// promised of the value, so the contract is empty; the interpreter
/// states what holds of a CXNN step for every byte.
#[verifier::external_body]
fn random_byte() -> u8 {
    rand::random::<u8>()
}

/// Wrapping byte addition is addition modulo 256.
proof fn lemma_wadd8_mod(a: u8, b: u8)
    ensures
        wadd8(a, b) == (a + b) % 256,
{
    if a + b > 0xFF {
        vstd::arithmetic::div_mod::lemma_fundamental_div_mod_converse(a + b, 256, 1, a + b - 256);
    } else {
        vstd::arithmetic::div_mod::lemma_small_mod((a + b) as nat, 256);
    }
}

/// Wrapping byte subtraction is subtraction modulo 256.
proof fn lemma_wsub8_mod(a: u8, b: u8)
    ensures
        wsub8(a, b) == (a - b) % 256,
{
    if a - b < 0 {
        vstd::arithmetic::div_mod::lemma_fundamental_div_mod_converse(a - b, 256, -1, a - b + 256);
    } else {
        vstd::arithmetic::div_mod::lemma_small_mod((a - b) as nat, 256);
    }
}

/// Law: a load immediate (6XNN) followed by an add immediate (7XNN)
/// to the same register leaves (n1 + n2) mod 256 in it.
pub proof fn lemma_load_then_add(s: CpuState, op1: u16, op2: u16, r1: u8, r2: u8)
    requires
        s.wf(),
        op1 >> 12u16 == 0x6,
        op2 >> 12u16 == 0x7,
        (op1 >> 8u16) & 0xF == (op2 >> 8u16) & 0xF,
    ensures
        step_spec(step_spec(s, op1, r1), op2, r2).v[((op1 >> 8u16) & 0xF) as int] == ((op1 & 0xFF)
            + (op2 & 0xFF)) % 256,
{
    lemma_decode_bounds(op1);
    lemma_decode_bounds(op2);
    let x = ((op1 >> 8u16) & 0xF) as int;
    let a = (op1 & 0xFF) as u8;
    let b = (op2 & 0xFF) as u8;
    let s1 = step_spec(s, op1, r1);
    assert(s1.v[x] == a);
    lemma_wadd8_mod(a, b);
}

/// Law: 8XY4 adds with carry — VF becomes 1 exactly when a + b
/// overflows a byte, and VX becomes (a + b) mod 256.  VF itself
/// cannot be the destination register, since the carry write would be
/// clobbered.
pub proof fn lemma_add_overflow_flag(s: CpuState, op: u16, rnd: u8)
    requires
        s.wf(),
        op >> 12u16 == 0x8,
        op & 0xF == 0x4,
        (op >> 8u16) & 0xF != 0xF,
    ensures
        ({
            let a = s.v[((op >> 8u16) & 0xF) as int];
            let b = s.v[((op >> 4u16) & 0xF) as int];
            let s1 = step_spec(s, op, rnd);
            &&& (s1.v[0xF] == 1 <==> a + b > 255)
            &&& (s1.v[0xF] == 0 <==> a + b <= 255)
            &&& s1.v[((op >> 8u16) & 0xF) as int] == (a + b) % 256
        }),
{
    lemma_decode_bounds(op);
    let a = s.v[((op >> 8u16) & 0xF) as int];
    let b = s.v[((op >> 4u16) & 0xF) as int];
    lemma_wadd8_mod(a, b);
}

/// Law: 8XY5 subtracts with borrow — VF becomes 0 exactly when
/// a < b (a borrow occurred), and VX becomes (a - b) mod 256.
pub proof fn lemma_sub_borrow_flag(s: CpuState, op: u16, rnd: u8)
    requires
        s.wf(),
        op >> 12u16 == 0x8,
        op & 0xF == 0x5,
        (op >> 8u16) & 0xF != 0xF,
    ensures
        ({
            let a = s.v[((op >> 8u16) & 0xF) as int];
            let b = s.v[((op >> 4u16) & 0xF) as int];
            let s1 = step_spec(s, op, rnd);
            &&& (s1.v[0xF] == 0 <==> a < b)
            &&& s1.v[((op >> 8u16) & 0xF) as int] == (a - b) % 256
        }),
{
    lemma_decode_bounds(op);
    let a = s.v[((op >> 8u16) & 0xF) as int];
    let b = s.v[((op >> 4u16) & 0xF) as int];
    lemma_wsub8_mod(a, b);
}

/// Law: 8XY6 captures the pre-shift least-significant bit into VF,
/// then halves VX.
pub proof fn lemma_shift_right(s: CpuState, op: u16, rnd: u8)
    requires
        s.wf(),
        op >> 12u16 == 0x8,
        op & 0xF == 0x6,
        (op >> 8u16) & 0xF != 0xF,
    ensures
        ({
            let a = s.v[((op >> 8u16) & 0xF) as int];
            let s1 = step_spec(s, op, rnd);
            &&& s1.v[0xF] == a % 2
            &&& s1.v[((op >> 8u16) & 0xF) as int] == a / 2
        }),
{
    lemma_decode_bounds(op);
    let a = s.v[((op >> 8u16) & 0xF) as int];
    assert(a & 1 == a % 2) by (bit_vector);
    assert(a >> 1u8 == a / 2) by (bit_vector);
}

/// Law: 8XYE captures the pre-shift bit 7 into VF (as 128 or 0),
/// then doubles VX modulo 256.
pub proof fn lemma_shift_left(s: CpuState, op: u16, rnd: u8)
    requires
        s.wf(),
        op >> 12u16 == 0x8,
        op & 0xF == 0xE,
        (op >> 8u16) & 0xF != 0xF,
    ensures
        ({
            let a = s.v[((op >> 8u16) & 0xF) as int];
            let s1 = step_spec(s, op, rnd);
            &&& s1.v[0xF] == (if a >= 128 {
                128u8
            } else {
                0u8
            })
            &&& s1.v[((op >> 8u16) & 0xF) as int] == (2 * a) % 256
        }),
{
    lemma_decode_bounds(op);
    let a = s.v[((op >> 8u16) & 0xF) as int];
    assert(a & 128 == (if a >= 128 {
        128u8
    } else {
        0u8
    })) by (bit_vector);
    assert(a << 1u8 == (2 * a) % 256) by (bit_vector);
}

/// Whether the opcode is one of the conditional skips; the key skips
/// qualify only when the register value addresses the keypad.
pub open spec fn is_skip(s: CpuState, op: u16) -> bool {
    let h = op >> 12u16;
    let y = (op >> 4u16) & 0xF;
    let l = op & 0xF;
    ||| h == 0x3
    ||| h == 0x4
    ||| (h == 0x5 && l == 0)
    ||| (h == 0x9 && l == 0)
    ||| (h == 0xE && ((y == 0x9 && l == 0xE) || (y == 0xA && l == 1)) && s.v[((op >> 8u16)
        & 0xF) as int] < 16)
}

/// The condition a conditional skip tests.
pub open spec fn skip_condition(s: CpuState, op: u16) -> bool {
    let h = op >> 12u16;
    let x = ((op >> 8u16) & 0xF) as int;
    let y = ((op >> 4u16) & 0xF) as int;
    let nn = (op & 0xFF) as u8;
    if h == 0x3 {
        s.v[x] == nn
    } else if h == 0x4 {
        s.v[x] != nn
    } else if h == 0x5 {
        s.v[x] == s.v[y]
    } else if h == 0x9 {
        s.v[x] != s.v[y]
    } else if (op >> 4u16) & 0xF == 0x9 {
        s.keys[s.v[x] as int]
    } else {
        !s.keys[s.v[x] as int]
    }
}

/// Law: a conditional skip alters nothing but the program counter,
/// which advances by exactly 4 when the condition holds and by
/// exactly 2 when it does not.
pub proof fn lemma_skip_only_moves_pc(s: CpuState, op: u16, rnd: u8)
    requires
        s.wf(),
        is_skip(s, op),
    ensures
        ({
            let s1 = step_spec(s, op, rnd);
            &&& s1 == (CpuState { program_counter: s1.program_counter, ..s })
            &&& s1.program_counter == wadd16(
                s.program_counter,
                if skip_condition(s, op) {
                    4
                } else {
                    2
                },
            )
        }),
{
    lemma_decode_bounds(op);
    let s1 = step_spec(s, op, rnd);
    assert(s1 =~= (CpuState { program_counter: s1.program_counter, ..s }));
}

/// Law: a subroutine call (2NNN) followed by a return (00EE) leaves
/// the program counter two past the call and restores the stack
/// pointer; registers and memory are untouched.
pub proof fn lemma_call_return_roundtrip(s: CpuState, op: u16, r1: u8, r2: u8)
    requires
        s.wf(),
        op >> 12u16 == 0x2,
        s.stack_pointer < 16,
    ensures
        ({
            let s2 = step_spec(step_spec(s, op, r1), 0x00EE, r2);
            &&& s2.program_counter == wadd16(s.program_counter, 2)
            &&& s2.stack_pointer == s.stack_pointer
            &&& s2.v == s.v
            &&& s2.memory == s.memory
            &&& s2.screen == s.screen
        }),
{
    lemma_decode_bounds(op);
    assert(0x00EEu16 >> 12u16 == 0) by (bit_vector);
}

/// Law: FX33 stores the decimal digits of VX — hundreds, tens, ones —
/// at the index register and the two following cells.
pub proof fn lemma_bcd_decomposition(s: CpuState, op: u16, rnd: u8)
    requires
        s.wf(),
        op >> 12u16 == 0xF,
        (op >> 4u16) & 0xF == 0x3,
        op & 0xF == 0x3,
        s.index + 3 <= MEM_SIZE,
    ensures
        ({
            let a = s.v[((op >> 8u16) & 0xF) as int];
            let s1 = step_spec(s, op, rnd);
            &&& s1.memory[s.index as int] == a / 100
            &&& s1.memory[s.index as int + 1] == (a / 10) % 10
            &&& s1.memory[s.index as int + 2] == a % 10
        }),
{
    lemma_decode_bounds(op);
    let a = s.v[((op >> 8u16) & 0xF) as int];
    assert((a % 100) % 10 == a % 10) by (bit_vector);
}

/// The timer value after `n` once-per-cycle ticks.
pub open spec fn ticks(t: u8, n: nat) -> u8
    decreases n,
{
    if n == 0 {
        t
    } else {
        tick_timer(ticks(t, (n - 1) as nat))
    }
}

/// Law: a timer starting at `t` holds `t - n` after `n` ticks, so it
/// reaches 0 after exactly `t` of them and stays there; the audible
/// cue's trigger value 1 — the value the sound timer holds on the one
/// cycle whose tick takes it to 0 — occurs exactly on tick t - 1.
pub proof fn lemma_timer_countdown(t: u8, n: nat)
    ensures
        n <= t ==> ticks(t, n) == t - n,
        n >= t ==> ticks(t, n) == 0,
        t > 0 ==> (ticks(t, n) == 1 <==> n == t - 1),
    decreases n,
{
    if n > 0 {
        lemma_timer_countdown(t, (n - 1) as nat);
    }
}

} // verus!
