use vstd::prelude::*;
use crate::cpu::{Cpu, CpuModel, lemma_cpu_wf};

verus! {

/// The ASCII upper-case hexadecimal digit for `d` (0 to 15).
pub open spec fn hex_char(d: int) -> u8 {
    if d < 10 {
        (48 + d) as u8
    } else {
        (55 + d) as u8
    }
}

/// The hexadecimal digits of `n`, most significant first, without leading
/// zeros (one `0` for zero).
pub open spec fn hex_digits(n: nat) -> Seq<u8>
    decreases n,
{
    if n < 16 {
        seq![hex_char(n as int)]
    } else {
        hex_digits(n / 16).push(hex_char((n % 16) as int))
    }
}

/// The decimal digits of `n`, most significant first, without leading zeros.
pub open spec fn dec_digits(n: nat) -> Seq<u8>
    decreases n,
{
    if n < 10 {
        seq![(48 + n) as u8]
    } else {
        dec_digits(n / 10).push((48 + n % 10) as u8)
    }
}

/// `n` written as `0x` followed by its upper-case hexadecimal digits.
pub open spec fn hex_text(n: nat) -> Seq<u8> {
    seq![48u8, 120u8] + hex_digits(n)
}

/// The first `k` registers, each in hexadecimal followed by a space.
pub open spec fn regs_text(v: Seq<u8>, k: int) -> Seq<u8>
    decreases k,
{
    if k <= 0 {
        Seq::empty()
    } else {
        regs_text(v, k - 1) + hex_text(v[k - 1] as nat).push(32u8)
    }
}

/// The processor state as text:
///
/// ```text
/// (empty line)
/// pc: 0x200
/// vx: 0x0 0x1F ... (sixteen registers)
/// i: 0x123
/// (empty line)
/// delay_timer: 7
/// ```
pub open spec fn state_text_of(s: CpuModel) -> Seq<u8> {
    seq![10u8, 112, 99, 58, 32] + hex_text(s.pc as nat) + seq![10u8] + seq![118u8, 120, 58, 32]
        + regs_text(s.v, 16) + seq![10u8] + seq![105u8, 58, 32] + hex_text(s.i as nat) + seq![10u8]
        + seq![10u8, 100, 101, 108, 97, 121, 95, 116, 105, 109, 101, 114, 58, 32] + dec_digits(
        s.delay_timer as nat,
    ) + seq![10u8]
}

fn push_all(out: &mut Vec<u8>, bytes: &[u8])
    ensures
        final(out)@ == old(out)@ + bytes@,
{
    let ghost start = out@;
    for k in 0..bytes.len()
        invariant
            out@ == start + bytes@.subrange(0, k as int),
    {
        out.push(bytes[k]);
        assert(start + bytes@.subrange(0, k + 1) =~= (start + bytes@.subrange(0, k as int)).push(
            bytes@[k as int],
        ));
    }
    assert(bytes@.subrange(0, bytes@.len() as int) =~= bytes@);
}

fn push_hex_digits(out: &mut Vec<u8>, n: u16)
    ensures
        final(out)@ == old(out)@ + hex_digits(n as nat),
    decreases n,
{
    let ghost start = out@;
    if n >= 16 {
        push_hex_digits(out, n / 16);
    }
    let d = (n % 16) as u8;
    let c = if d < 10 {
        48 + d
    } else {
        55 + d
    };
    out.push(c);
    if n >= 16 {
        assert(out@ =~= start + hex_digits(n as nat));
    } else {
        assert(out@ =~= start + hex_digits(n as nat));
    }
}

fn push_dec_digits(out: &mut Vec<u8>, n: u8)
    ensures
        final(out)@ == old(out)@ + dec_digits(n as nat),
    decreases n,
{
    let ghost start = out@;
    if n >= 10 {
        push_dec_digits(out, n / 10);
    }
    out.push(48 + n % 10);
    assert(out@ =~= start + dec_digits(n as nat));
}

fn push_hex(out: &mut Vec<u8>, n: u16)
    ensures
        final(out)@ == old(out)@ + hex_text(n as nat),
{
    let ghost start = out@;
    out.push(48);
    out.push(120);
    push_hex_digits(out, n);
    assert(out@ =~= start + hex_text(n as nat));
}

impl Cpu {
    /// The processor state as text (see `state_text_of`).
    pub fn state_text(&self) -> (text: Vec<u8>)
        ensures
            text@ == state_text_of(self@),
    {
        proof {
            lemma_cpu_wf(self);
        }
        let mut out: Vec<u8> = Vec::new();
        push_all(&mut out, &[10u8, 112, 99, 58, 32]);
        push_hex(&mut out, self.pc());
        push_all(&mut out, &[10u8]);
        push_all(&mut out, &[118u8, 120, 58, 32]);
        let ghost head = out@;
        for r in 0..16
            invariant
                self@.v.len() == 16,
                out@ == head + regs_text(self@.v, r as int),
        {
            push_hex(&mut out, self.v_reg(r) as u16);
            out.push(32);
            assert(out@ =~= head + regs_text(self@.v, r + 1));
        }
        push_all(&mut out, &[10u8]);
        push_all(&mut out, &[105u8, 58, 32]);
        push_hex(&mut out, self.i_reg());
        push_all(&mut out, &[10u8]);
        push_all(&mut out, &[10u8, 100, 101, 108, 97, 121, 95, 116, 105, 109, 101, 114, 58, 32]);
        push_dec_digits(&mut out, self.delay_timer());
        push_all(&mut out, &[10u8]);
        assert(out@ =~= state_text_of(self@));
        out
    }
}

} // verus!
