//! Register-context layouts.
//!
//! Fixed-field records of the CPU's general-purpose and segment
//! registers plus instruction pointer and flags, in a 32-bit and a
//! 64-bit size, with a narrowing conversion from wide to narrow and a
//! flattening into machine words, most significant field first, suitable
//! for pushing onto a stack frame for a first context switch.

use vstd::prelude::*;
use crate::flags;

verus! {

pub const GDT32_CODE: u32 = 0x0010;

pub const GDT32_DATA: u32 = 0x0018;

pub const GDT32_STACK: u32 = 0x0020;

pub const GDT64_CODE: u64 = 0x0010;

pub const GDT64_DATA: u64 = 0x0018;

pub const GDT64_STACK: u64 = 0x0020;

/// 32-bit register context.
#[derive(Clone, Copy, Debug, PartialEq, Eq, Structural)]
pub struct Context32 {
    pub ss: u32,
    pub gs: u32,
    pub fs: u32,
    pub es: u32,
    pub ds: u32,
    pub edi: u32,
    pub esi: u32,
    pub ebp: u32,
    pub esp: u32,
    pub ebx: u32,
    pub edx: u32,
    pub ecx: u32,
    pub eax: u32,
    pub vector: u32,
    pub code: u32,
    pub eip: u32,
    pub cs: u32,
    pub eflags: u32,
}

/// 64-bit register context.
#[derive(Clone, Copy, Debug, PartialEq, Eq, Structural)]
pub struct Context64 {
    pub ss: u64,
    pub gs: u64,
    pub fs: u64,
    pub es: u64,
    pub ds: u64,
    pub r15: u64,
    pub r14: u64,
    pub r13: u64,
    pub r12: u64,
    pub r11: u64,
    pub r10: u64,
    pub r9: u64,
    pub r8: u64,
    pub rdi: u64,
    pub rsi: u64,
    pub rbp: u64,
    pub rsp: u64,
    pub rbx: u64,
    pub rdx: u64,
    pub rcx: u64,
    pub rax: u64,
    pub vector: u64,
    pub code: u64,
    pub rip: u64,
    pub cs: u64,
    pub rflags: u64,
}

/// The fresh 64-bit context every new execution starts from: segment
/// selectors set, flags at their default, every other register zero.
pub open spec fn default_context64() -> Context64 {
    (Context64 {
        ss: GDT64_STACK,
        gs: GDT64_DATA,
        fs: GDT64_DATA,
        es: GDT64_DATA,
        ds: GDT64_DATA,
        r15: 0,
        r14: 0,
        r13: 0,
        r12: 0,
        r11: 0,
        r10: 0,
        r9: 0,
        r8: 0,
        rdi: 0,
        rsi: 0,
        rbp: 0,
        rsp: 0,
        rbx: 0,
        rdx: 0,
        rcx: 0,
        rax: 0,
        vector: 0,
        code: 0,
        rip: 0,
        cs: GDT64_CODE,
        rflags: flags::DEFAULT,
    })
}

/// The fresh 32-bit context, the narrow counterpart of
/// `default_context64`.
pub open spec fn default_context32() -> Context32 {
    (Context32 {
        ss: GDT32_STACK,
        gs: GDT32_DATA,
        fs: GDT32_DATA,
        es: GDT32_DATA,
        ds: GDT32_DATA,
        edi: 0,
        esi: 0,
        ebp: 0,
        esp: 0,
        ebx: 0,
        edx: 0,
        ecx: 0,
        eax: 0,
        vector: 0,
        code: 0,
        eip: 0,
        cs: GDT32_CODE,
        eflags: flags::DEFAULT as u32,
    })
}

impl Context64 {
    /// The context flattened into machine words, most significant field
    /// first: the order a stack frame is pushed in.
    pub open spec fn words_spec(&self) -> Seq<u64> {
        seq![
            self.rflags,
            self.cs,
            self.rip,
            self.code,
            self.vector,
            self.rax,
            self.rcx,
            self.rdx,
            self.rbx,
            self.rsp,
            self.rbp,
            self.rsi,
            self.rdi,
            self.r8,
            self.r9,
            self.r10,
            self.r11,
            self.r12,
            self.r13,
            self.r14,
            self.r15,
            self.ds,
            self.es,
            self.fs,
            self.gs,
            self.ss,
        ]
    }

    /// The narrowing of this context to the 32-bit layout, truncating
    /// each register.
    pub open spec fn narrowed_spec(&self) -> Context32 {
        (Context32 {
            ss: self.ss as u32,
            gs: self.gs as u32,
            fs: self.fs as u32,
            es: self.es as u32,
            ds: self.ds as u32,
            edi: self.rdi as u32,
            esi: self.rsi as u32,
            ebp: self.rbp as u32,
            esp: self.rsp as u32,
            ebx: self.rbx as u32,
            edx: self.rdx as u32,
            ecx: self.rcx as u32,
            eax: self.rax as u32,
            vector: self.vector as u32,
            code: self.code as u32,
            eip: self.rip as u32,
            cs: self.cs as u32,
            eflags: self.rflags as u32,
        })
    }

    /// Builds the fresh 64-bit context.
    pub fn new() -> (r: Context64)
        ensures
            r == default_context64(),
    {
        Context64 {
            ss: GDT64_STACK,
            gs: GDT64_DATA,
            fs: GDT64_DATA,
            es: GDT64_DATA,
            ds: GDT64_DATA,
            r15: 0,
            r14: 0,
            r13: 0,
            r12: 0,
            r11: 0,
            r10: 0,
            r9: 0,
            r8: 0,
            rdi: 0,
            rsi: 0,
            rbp: 0,
            rsp: 0,
            rbx: 0,
            rdx: 0,
            rcx: 0,
            rax: 0,
            vector: 0,
            code: 0,
            rip: 0,
            cs: GDT64_CODE,
            rflags: flags::DEFAULT,
        }
    }

    /// Narrows this context to the 32-bit layout, truncating each
    /// register.
    pub fn to_context32(self) -> (r: Context32)
        ensures
            r == self.narrowed_spec(),
    {
        Context32 {
            ss: self.ss as u32,
            gs: self.gs as u32,
            fs: self.fs as u32,
            es: self.es as u32,
            ds: self.ds as u32,
            edi: self.rdi as u32,
            esi: self.rsi as u32,
            ebp: self.rbp as u32,
            esp: self.rsp as u32,
            ebx: self.rbx as u32,
            edx: self.rdx as u32,
            ecx: self.rcx as u32,
            eax: self.rax as u32,
            vector: self.vector as u32,
            code: self.code as u32,
            eip: self.rip as u32,
            cs: self.cs as u32,
            eflags: self.rflags as u32,
        }
    }

    /// Flattens the context into machine words, most significant field
    /// first.
    pub fn to_words(self) -> (r: Vec<u64>)
        ensures
            r@ == self.words_spec(),
    {
        let mut words: Vec<u64> = Vec::new();
        words.push(self.rflags);
        words.push(self.cs);
        words.push(self.rip);
        words.push(self.code);
        words.push(self.vector);
        words.push(self.rax);
        words.push(self.rcx);
        words.push(self.rdx);
        words.push(self.rbx);
        words.push(self.rsp);
        words.push(self.rbp);
        words.push(self.rsi);
        words.push(self.rdi);
        words.push(self.r8);
        words.push(self.r9);
        words.push(self.r10);
        words.push(self.r11);
        words.push(self.r12);
        words.push(self.r13);
        words.push(self.r14);
        words.push(self.r15);
        words.push(self.ds);
        words.push(self.es);
        words.push(self.fs);
        words.push(self.gs);
        words.push(self.ss);
        proof {
            assert(words@ =~= self.words_spec());
        }
        words
    }
}

impl Context32 {
    /// The context flattened into machine words, most significant field
    /// first.
    pub open spec fn words_spec(&self) -> Seq<u32> {
        seq![
            self.eflags,
            self.cs,
            self.eip,
            self.code,
            self.vector,
            self.eax,
            self.ecx,
            self.edx,
            self.ebx,
            self.esp,
            self.ebp,
            self.esi,
            self.edi,
            self.ds,
            self.es,
            self.fs,
            self.gs,
            self.ss,
        ]
    }

    /// Builds the fresh 32-bit context.
    pub fn new() -> (r: Context32)
        ensures
            r == default_context32(),
    {
        Context32 {
            ss: GDT32_STACK,
            gs: GDT32_DATA,
            fs: GDT32_DATA,
            es: GDT32_DATA,
            ds: GDT32_DATA,
            edi: 0,
            esi: 0,
            ebp: 0,
            esp: 0,
            ebx: 0,
            edx: 0,
            ecx: 0,
            eax: 0,
            vector: 0,
            code: 0,
            eip: 0,
            cs: GDT32_CODE,
            eflags: flags::DEFAULT as u32,
        }
    }

    /// Flattens the context into machine words, most significant field
    /// first.
    pub fn to_words(self) -> (r: Vec<u32>)
        ensures
            r@ == self.words_spec(),
    {
        let mut words: Vec<u32> = Vec::new();
        words.push(self.eflags);
        words.push(self.cs);
        words.push(self.eip);
        words.push(self.code);
        words.push(self.vector);
        words.push(self.eax);
        words.push(self.ecx);
        words.push(self.edx);
        words.push(self.ebx);
        words.push(self.esp);
        words.push(self.ebp);
        words.push(self.esi);
        words.push(self.edi);
        words.push(self.ds);
        words.push(self.es);
        words.push(self.fs);
        words.push(self.gs);
        words.push(self.ss);
        proof {
            assert(words@ =~= self.words_spec());
        }
        words
    }
}

} // verus!
