use vstd::prelude::*;

use super::constants::{
    HEIGHT, VBE_DISPI_ENABLED, VBE_DISPI_INDEX_BPP, VBE_DISPI_INDEX_ENABLE, VBE_DISPI_INDEX_XRES,
    VBE_DISPI_INDEX_YRES, VBE_DISPI_IOPORT_DATA, VBE_DISPI_IOPORT_INDEX, VBE_DISPI_LFB_ENABLED,
    WIDTH,
};

verus! {

/// One access to a 16-bit I/O port.
#[derive(Clone, Copy, Debug, PartialEq, Eq, Structural)]
pub enum PortAccess {
    /// Write `value` to `port`.
    Write { port: u16, value: u16 },
    /// Read `port`; the value read is not used.
    Read { port: u16 },
}

/// Set the VBE register `index` to `value`: select it through the index port, then write
/// the data port.
pub open spec fn register_write(index: u16, value: u16) -> Seq<PortAccess> {
    seq![
        PortAccess::Write { port: VBE_DISPI_IOPORT_INDEX, value: index },
        PortAccess::Write { port: VBE_DISPI_IOPORT_DATA, value: value },
    ]
}

/// Read back the VBE register `index`: select it, then read the data port.
pub open spec fn register_read(index: u16) -> Seq<PortAccess> {
    seq![
        PortAccess::Write { port: VBE_DISPI_IOPORT_INDEX, value: index },
        PortAccess::Read { port: VBE_DISPI_IOPORT_DATA },
    ]
}

/// The port accesses that switch a Bochs VBE adapter to `WIDTH` x `HEIGHT` at 32 bits per
/// pixel with its linear framebuffer: disable the adapter, set the resolution and depth,
/// enable it with the linear framebuffer, then read back the four registers.
pub open spec fn vbe_mode_program() -> Seq<PortAccess> {
    register_write(VBE_DISPI_INDEX_ENABLE, 0) + register_write(VBE_DISPI_INDEX_XRES, WIDTH as u16)
        + register_write(VBE_DISPI_INDEX_YRES, HEIGHT as u16) + register_write(
        VBE_DISPI_INDEX_BPP,
        32,
    ) + register_write(VBE_DISPI_INDEX_ENABLE, VBE_DISPI_ENABLED | VBE_DISPI_LFB_ENABLED)
        + register_read(VBE_DISPI_INDEX_XRES) + register_read(VBE_DISPI_INDEX_YRES)
        + register_read(VBE_DISPI_INDEX_BPP) + register_read(VBE_DISPI_INDEX_ENABLE)
}

/// The state of the adapter's registers that the program reaches: the register selected
/// through the index port, and the value of every register written through the data port.
pub open spec fn port_step(state: (u16, Map<u16, u16>), op: PortAccess) -> (u16, Map<u16, u16>) {
    match op {
        PortAccess::Write { port, value } => {
            if port == VBE_DISPI_IOPORT_INDEX {
                (value, state.1)
            } else if port == VBE_DISPI_IOPORT_DATA {
                (state.0, state.1.insert(state.0, value))
            } else {
                state
            }
        },
        PortAccess::Read { .. } => state,
    }
}

/// The register state after running `ops` from `state`, in order.
pub open spec fn run_ports(state: (u16, Map<u16, u16>), ops: Seq<PortAccess>) -> (u16, Map<
    u16,
    u16,
>)
    decreases ops.len(),
{
    if ops.len() == 0 {
        state
    } else {
        run_ports(port_step(state, ops[0]), ops.drop_first())
    }
}

/// Running `a + b` runs `a`, then `b`.
proof fn lemma_run_ports_append(state: (u16, Map<u16, u16>), a: Seq<PortAccess>, b: Seq<PortAccess>)
    ensures
        run_ports(state, a + b) == run_ports(run_ports(state, a), b),
    decreases a.len(),
{
    if a.len() == 0 {
        assert(a + b =~= b);
    } else {
        assert((a + b).drop_first() =~= a.drop_first() + b);
        lemma_run_ports_append(port_step(state, a[0]), a.drop_first(), b);
    }
}

/// Whatever the adapter's registers held before, after the mode program the resolution is
/// `WIDTH` x `HEIGHT`, the depth 32 bits per pixel, and the adapter enabled with its linear
/// framebuffer.
pub proof fn lemma_vbe_mode_program_sets_mode(state: (u16, Map<u16, u16>))
    ensures
        ({
            let regs = run_ports(state, vbe_mode_program()).1;
            &&& regs.contains_key(VBE_DISPI_INDEX_XRES) && regs[VBE_DISPI_INDEX_XRES] == WIDTH
            &&& regs.contains_key(VBE_DISPI_INDEX_YRES) && regs[VBE_DISPI_INDEX_YRES] == HEIGHT
            &&& regs.contains_key(VBE_DISPI_INDEX_BPP) && regs[VBE_DISPI_INDEX_BPP] == 32
            &&& regs.contains_key(VBE_DISPI_INDEX_ENABLE) && regs[VBE_DISPI_INDEX_ENABLE]
                == VBE_DISPI_ENABLED | VBE_DISPI_LFB_ENABLED
        }),
{
    let w0 = register_write(VBE_DISPI_INDEX_ENABLE, 0);
    let w1 = register_write(VBE_DISPI_INDEX_XRES, WIDTH as u16);
    let w2 = register_write(VBE_DISPI_INDEX_YRES, HEIGHT as u16);
    let w3 = register_write(VBE_DISPI_INDEX_BPP, 32);
    let w4 = register_write(VBE_DISPI_INDEX_ENABLE, VBE_DISPI_ENABLED | VBE_DISPI_LFB_ENABLED);
    let r1 = register_read(VBE_DISPI_INDEX_XRES);
    let r2 = register_read(VBE_DISPI_INDEX_YRES);
    let r3 = register_read(VBE_DISPI_INDEX_BPP);
    let r4 = register_read(VBE_DISPI_INDEX_ENABLE);
    reveal_with_fuel(run_ports, 3);
    let s0 = run_ports(state, w0);
    let s1 = run_ports(s0, w1);
    let s2 = run_ports(s1, w2);
    let s3 = run_ports(s2, w3);
    let s4 = run_ports(s3, w4);
    let s5 = run_ports(s4, r1);
    let s6 = run_ports(s5, r2);
    let s7 = run_ports(s6, r3);
    let s8 = run_ports(s7, r4);
    lemma_run_ports_append(state, w0, w1);
    lemma_run_ports_append(state, w0 + w1, w2);
    lemma_run_ports_append(state, w0 + w1 + w2, w3);
    lemma_run_ports_append(state, w0 + w1 + w2 + w3, w4);
    lemma_run_ports_append(state, w0 + w1 + w2 + w3 + w4, r1);
    lemma_run_ports_append(state, w0 + w1 + w2 + w3 + w4 + r1, r2);
    lemma_run_ports_append(state, w0 + w1 + w2 + w3 + w4 + r1 + r2, r3);
    lemma_run_ports_append(state, w0 + w1 + w2 + w3 + w4 + r1 + r2 + r3, r4);
    assert(s4.1[VBE_DISPI_INDEX_XRES] == WIDTH);
    assert(s8.1 == s4.1);
}

fn push_register_write(ops: &mut Vec<PortAccess>, index: u16, value: u16)
    ensures
        final(ops)@ == old(ops)@ + register_write(index, value),
{
    ops.push(PortAccess::Write { port: VBE_DISPI_IOPORT_INDEX, value: index });
    ops.push(PortAccess::Write { port: VBE_DISPI_IOPORT_DATA, value: value });
    assert(final(ops)@ =~= old(ops)@ + register_write(index, value));
}

fn push_register_read(ops: &mut Vec<PortAccess>, index: u16)
    ensures
        final(ops)@ == old(ops)@ + register_read(index),
{
    ops.push(PortAccess::Write { port: VBE_DISPI_IOPORT_INDEX, value: index });
    ops.push(PortAccess::Read { port: VBE_DISPI_IOPORT_DATA });
    assert(final(ops)@ =~= old(ops)@ + register_read(index));
}

/// The port accesses, in order, that set the VBE mode of the framebuffer.
pub fn init_vbe_mode() -> (ops: Vec<PortAccess>)
    ensures
        ops@ == vbe_mode_program(),
{
    let mut ops: Vec<PortAccess> = Vec::new();
    // Disable VBE for initialization
    push_register_write(&mut ops, VBE_DISPI_INDEX_ENABLE, 0);
    // Set resolution and color depth
    push_register_write(&mut ops, VBE_DISPI_INDEX_XRES, WIDTH as u16);
    push_register_write(&mut ops, VBE_DISPI_INDEX_YRES, HEIGHT as u16);
    push_register_write(&mut ops, VBE_DISPI_INDEX_BPP, 32);
    // Enable VBE with the linear framebuffer
    push_register_write(&mut ops, VBE_DISPI_INDEX_ENABLE, VBE_DISPI_ENABLED | VBE_DISPI_LFB_ENABLED);
    // Read back
    push_register_read(&mut ops, VBE_DISPI_INDEX_XRES);
    push_register_read(&mut ops, VBE_DISPI_INDEX_YRES);
    push_register_read(&mut ops, VBE_DISPI_INDEX_BPP);
    push_register_read(&mut ops, VBE_DISPI_INDEX_ENABLE);
    assert(ops@ =~= vbe_mode_program());
    ops
}

} // verus!
