use fixedcap::context::Context32;
use fixedcap::context::Context64;
use fixedcap::flags;

#[test]
fn context64_new_field_values() {
    let c = Context64::new();
    assert_eq!(c.ss, 0x0020);
    assert_eq!(c.cs, 0x0010);
    assert_eq!(c.gs, 0x0018);
    assert_eq!(c.fs, 0x0018);
    assert_eq!(c.es, 0x0018);
    assert_eq!(c.ds, 0x0018);
    assert_eq!(c.rflags, flags::DEFAULT);
    assert_eq!(flags::DEFAULT, 0x202);
    assert_eq!(c.rax, 0);
    assert_eq!(c.rsp, 0);
    assert_eq!(c.rip, 0);
    assert_eq!(c.vector, 0);
    assert_eq!(c.code, 0);
    assert_eq!(c.r15, 0);
}

#[test]
fn context32_new_field_values() {
    let c = Context32::new();
    assert_eq!(c.ss, 0x0020);
    assert_eq!(c.cs, 0x0010);
    assert_eq!(c.ds, 0x0018);
    assert_eq!(c.eflags, 0x202);
    assert_eq!(c.eax, 0);
    assert_eq!(c.eip, 0);
}

#[test]
fn context64_narrows_by_truncation() {
    let mut c = Context64::new();
    c.rax = 0x1_0000_0001;
    c.rip = 0xffff_ffff_ffff_ffff;
    c.rdi = 0x7;
    let n = c.to_context32();
    assert_eq!(n.eax, 1);
    assert_eq!(n.eip, 0xffff_ffff);
    assert_eq!(n.edi, 7);
    assert_eq!(n.ss, 0x0020);
    assert_eq!(n.eflags, 0x202);
    // the fresh contexts correspond under narrowing
    assert_eq!(Context64::new().to_context32(), Context32::new());
}

#[test]
fn context64_words_most_significant_first() {
    let mut c = Context64::new();
    c.rax = 11;
    c.rip = 22;
    let w = c.to_words();
    assert_eq!(w.len(), 26);
    assert_eq!(w[0], flags::DEFAULT); // rflags pushed first
    assert_eq!(w[1], 0x0010); // cs
    assert_eq!(w[2], 22); // rip
    assert_eq!(w[5], 11); // rax
    assert_eq!(w[25], 0x0020); // ss pushed last
}

#[test]
fn context32_words_most_significant_first() {
    let c = Context32::new();
    let w = c.to_words();
    assert_eq!(w.len(), 18);
    assert_eq!(w[0], 0x202); // eflags
    assert_eq!(w[1], 0x0010); // cs
    assert_eq!(w[17], 0x0020); // ss
}
