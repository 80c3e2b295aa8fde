//! FLAGS register constants.

use vstd::prelude::*;

verus! {

/// Bits which are unused (all bits past bit 21).
pub const RESERVED: u64 = !0b1111111111111111111111;

/// Bits which must be 0.
pub const MUST_BE_0: u64 = (0b1 << 5) | (0b1 << 15);

/// Bits which must be 1.
pub const MUST_BE_1: u64 = 0b1 << 1;

/// CPUID instruction enable flag.
pub const ID: u64 = 0b1 << 21;

/// Virtual interrupt pending flag.
pub const VIP: u64 = 0b1 << 20;

/// Virtual interrupt flag.
pub const VIF: u64 = 0b1 << 19;

/// Alignment check flag.
pub const AC: u64 = 0b1 << 18;

/// Virtual 8086 mode flag.
pub const VM: u64 = 0b1 << 17;

/// Resume flag.
pub const RF: u64 = 0b1 << 16;

/// Nested task flag.
pub const NT: u64 = 0b1 << 14;

/// I/O privilege level flag.
pub const IOPL: u64 = 0b11 << 12;

/// Overflow flag.
pub const OF: u64 = 0b1 << 11;

/// Direction flag.
pub const DF: u64 = 0b1 << 10;

/// Interrupt enable flag.
pub const IF: u64 = 0b1 << 9;

/// Trap flag.
pub const TF: u64 = 0b1 << 8;

/// Sign flag.
pub const SF: u64 = 0b1 << 7;

/// Zero flag.
pub const ZF: u64 = 0b1 << 6;

/// Adjust flag.
pub const AF: u64 = 0b1 << 4;

/// Parity flag.
pub const PF: u64 = 0b1 << 2;

/// Carry flag.
pub const CF: u64 = 0b1 << 0;

/// Default value for the eflags/rflags register.
pub const DEFAULT: u64 = MUST_BE_1 | IF;

} // verus!
