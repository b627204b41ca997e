//! Properties of whole programs: assembled from text, loaded and run.
use vstd::prelude::*;
use crate::assembler::{
    all_digits, assembly, decimal_value, emit, is_digit, layout, operand_value,
    parse_tokens, Labels,
};
use crate::binary::{le_bytes, lemma_encode_decode};
use crate::lexer::{
    is_space, lemma_lines_append, lemma_lines_single, lemma_tokens_append, lemma_tokens_single,
    lines_of, tokens_of,
};
use crate::opcode::{lemma_mnemonic_round_trip, mnemonic_of, takes_operand, Opcode};
use crate::vm::{initial, load, next, run, Event, Status};

verus! {

/// The serialised form of a program loads back as that program.
pub proof fn lemma_load_encoded(ws: Seq<u32>, entry: nat)
    requires
        0 < ws.len() <= u32::MAX,
        entry < ws.len(),
    ensures
        load(le_bytes(ws), entry) == Ok::<_, crate::vm::Fault>(initial(ws, entry)),
{
    lemma_encode_decode(ws);
    assert((4 * ws.len()) % 4 == 0);
    assert((4 * ws.len()) / 4 == ws.len());
}

/// `SET n; PRINT; HALT`, serialised and loaded, prints exactly `n` and
/// halts, for every `n`, given a budget of at least three steps.
pub proof fn lemma_set_print_halt_binary(n: u32, fuel: nat)
    requires
        fuel >= 3,
    ensures
        load(le_bytes(seq![0x07u32, n, 0x03, 0x0A]), 0) is Ok,
        run(load(le_bytes(seq![0x07u32, n, 0x03, 0x0A]), 0)->Ok_0, fuel).1 == seq![n],
        run(load(le_bytes(seq![0x07u32, n, 0x03, 0x0A]), 0)->Ok_0, fuel).2 == Status::Halted,
{
    lemma_load_encoded(seq![0x07u32, n, 0x03, 0x0A], 0);
    lemma_set_print_halt(n, fuel);
}

/// `SET n; PRINT; HALT` prints exactly `n` and halts, for every `n`, given
/// a budget of at least three steps.
pub proof fn lemma_set_print_halt(n: u32, fuel: nat)
    requires
        fuel >= 3,
    ensures
        run(initial(seq![0x07u32, n, 0x03, 0x0A], 0), fuel).1 == seq![n],
        run(initial(seq![0x07u32, n, 0x03, 0x0A], 0), fuel).2 == Status::Halted,
        run(initial(seq![0x07u32, n, 0x03, 0x0A], 0), fuel).0.acc == n,
{
    let m0 = initial(seq![0x07u32, n, 0x03, 0x0A], 0);
    let m1 = next(m0).0;
    let m2 = next(m1).0;
    assert(next(m0).1 == Event::Continue);
    assert(next(m1).1 == Event::Print(n));
    assert(next(m2).1 == Event::Halt);
    assert(run(m2, (fuel - 2) as nat) == (m2, Seq::<u32>::empty(), Status::Halted));
    assert(run(m1, (fuel - 1) as nat).1 =~= seq![n]);
}

/// `SET 0; ADD n; SUB n; PRINT; HALT` prints exactly `0`, for every `n`:
/// adding and then subtracting the same immediate is the identity.
pub proof fn lemma_add_sub_inverse(n: u32, fuel: nat)
    requires
        fuel >= 5,
    ensures
        run(initial(seq![0x07u32, 0, 0x01, n, 0x02, n, 0x03, 0x0A], 0), fuel).1 == seq![0u32],
        run(initial(seq![0x07u32, 0, 0x01, n, 0x02, n, 0x03, 0x0A], 0), fuel).2
            == Status::Halted,
{
    let m0 = initial(seq![0x07u32, 0, 0x01, n, 0x02, n, 0x03, 0x0A], 0);
    let m1 = next(m0).0;
    let m2 = next(m1).0;
    let m3 = next(m2).0;
    let m4 = next(m3).0;
    assert(next(m0).1 == Event::Continue);
    assert(next(m1).1 == Event::Continue);
    assert(m2.acc == n);
    assert(next(m2).1 == Event::Continue);
    assert(m3.acc == 0);
    assert(next(m3).1 == Event::Print(0));
    assert(next(m4).1 == Event::Halt);
    assert(run(m4, (fuel - 4) as nat) == (m4, Seq::<u32>::empty(), Status::Halted));
    assert(run(m3, (fuel - 3) as nat).1 =~= seq![0u32]);
    assert(run(m2, (fuel - 2) as nat) == run(m3, (fuel - 3) as nat));
    assert(run(m1, (fuel - 1) as nat) == run(m2, (fuel - 2) as nat));
}

/// An instruction line `<mnemonic> <digits>` holds one instruction with a
/// literal operand and no newline.
proof fn lemma_operand_line(op: Opcode, d: Seq<u8>)
    requires
        takes_operand(op),
        d.len() > 0,
        all_digits(d),
    ensures
        parse_tokens(tokens_of(mnemonic_of(op) + seq![0x20u8] + d)) == Ok::<
            _,
            (crate::assembler::AsmErrorKind, Seq<u8>),
        >((Option::<Seq<u8>>::None, Some(op), Some(d))),
        forall|i: int|
            0 <= i < (mnemonic_of(op) + seq![0x20u8] + d).len() ==> (mnemonic_of(op) + seq![
                0x20u8,
            ] + d)[i] != 0x0A,
{
    let m = mnemonic_of(op);
    let l = m + seq![0x20u8] + d;
    assert forall|i: int| 0 <= i < d.len() implies !is_space(d[i]) && d[i] != 0x0A by {
        assert(is_digit(d[i]));
    }
    assert forall|i: int| 0 <= i < l.len() implies l[i] != 0x0A by {
        if i > m.len() {
            assert(l[i] == d[i - m.len() - 1]);
        }
    }
    lemma_tokens_single(m);
    lemma_tokens_append(m, d);
    lemma_mnemonic_round_trip(op);
    assert(tokens_of(l) =~= seq![m, d]);
    assert(seq![m, d].drop_first() =~= seq![d]);
}

/// The source text `SET <d>`, newline, `PRINT`, newline, `HALT`.
pub open spec fn set_print_halt_text(d: Seq<u8>) -> Seq<u8> {
    mnemonic_of(Opcode::SetAcc) + seq![0x20u8] + d + seq![0x0Au8] + mnemonic_of(Opcode::Print)
        + seq![0x0Au8] + mnemonic_of(Opcode::Halt)
}

/// The source text `SET n`, `PRINT`, `HALT`, with `n` written in decimal,
/// assembles to `[SET, n, PRINT, HALT]`; loaded and run with a budget of at
/// least three steps, it prints exactly `n` and halts.
pub proof fn lemma_set_print_halt_source(d: Seq<u8>, fuel: nat)
    requires
        d.len() > 0,
        all_digits(d),
        decimal_value(d) <= u32::MAX,
        fuel >= 3,
    ensures
        assembly(set_print_halt_text(d)) == Ok::<Seq<u32>, crate::assembler::AsmErr>(
            seq![0x07u32, decimal_value(d) as u32, 0x03, 0x0A],
        ),
        run(initial(assembly(set_print_halt_text(d))->Ok_0, 0), fuel).1 == seq![
            decimal_value(d) as u32,
        ],
        run(initial(assembly(set_print_halt_text(d))->Ok_0, 0), fuel).2 == Status::Halted,
{
    let n = decimal_value(d) as u32;
    let set = mnemonic_of(Opcode::SetAcc);
    let print = mnemonic_of(Opcode::Print);
    let halt = mnemonic_of(Opcode::Halt);
    let l1 = set + seq![0x20u8] + d;
    let src = set_print_halt_text(d);
    lemma_operand_line(Opcode::SetAcc, d);
    lemma_lines_single(l1);
    lemma_lines_append(l1, print);
    lemma_lines_append(l1 + seq![0x0Au8] + print, halt);
    assert(src =~= (l1 + seq![0x0Au8] + print) + seq![0x0Au8] + halt);
    let ls = lines_of(src);
    assert(ls =~= seq![l1, print, halt]);
    lemma_tokens_single(print);
    lemma_tokens_single(halt);
    lemma_mnemonic_round_trip(Opcode::Print);
    lemma_mnemonic_round_trip(Opcode::Halt);
    assert(parse_tokens(tokens_of(print)) == Ok::<_, (crate::assembler::AsmErrorKind, Seq<u8>)>((
        Option::<Seq<u8>>::None,
        Some(Opcode::Print),
        Option::<Seq<u8>>::None,
    )));
    assert(parse_tokens(tokens_of(halt)) == Ok::<_, (crate::assembler::AsmErrorKind, Seq<u8>)>((
        Option::<Seq<u8>>::None,
        Some(Opcode::Halt),
        Option::<Seq<u8>>::None,
    )));
    let pre1 = seq![l1];
    let pre2 = seq![l1, print];
    assert(ls.drop_last() =~= pre2);
    assert(pre2.drop_last() =~= pre1);
    assert(pre1.drop_last() =~= Seq::<Seq<u8>>::empty());
    let empty = Seq::<(Seq<u8>, u32)>::empty();
    assert(pre1.last() == l1 && pre2.last() == print && ls.last() == halt);
    assert(layout(pre1.drop_last()) == Ok::<(Labels, nat), crate::assembler::AsmErr>((empty, 0)));
    assert(layout(pre1) == Ok::<(Labels, nat), crate::assembler::AsmErr>((empty, 2)));
    assert(layout(pre2) == Ok::<(Labels, nat), crate::assembler::AsmErr>((empty, 3)));
    assert(layout(ls) == Ok::<(Labels, nat), crate::assembler::AsmErr>((empty, 4)));
    assert(is_digit(d[0]));
    assert(operand_value(d, empty) == Ok::<u32, crate::assembler::AsmErrorKind>(n));
    assert(emit(pre1.drop_last(), empty) == Ok::<Seq<u32>, crate::assembler::AsmErr>(Seq::empty()));
    let w1 = Seq::<u32>::empty().push(0x07u32).push(n);
    assert(emit(pre1, empty) == Ok::<Seq<u32>, crate::assembler::AsmErr>(w1));
    assert(emit(pre2, empty) == Ok::<Seq<u32>, crate::assembler::AsmErr>(w1.push(0x03)));
    assert(emit(ls, empty) == Ok::<Seq<u32>, crate::assembler::AsmErr>(w1.push(0x03).push(0x0A)));
    assert(w1.push(0x03).push(0x0A) =~= seq![0x07u32, n, 0x03, 0x0A]);
    lemma_set_print_halt(n, fuel);
}

/// The source text `SET 0`, `ADD <d>`, `SUB <d>`, `PRINT`, `HALT`, one
/// instruction per line.
pub open spec fn add_sub_text(d: Seq<u8>) -> Seq<u8> {
    mnemonic_of(Opcode::SetAcc) + seq![0x20u8, 0x30] + seq![0x0Au8] + (mnemonic_of(Opcode::Add)
        + seq![0x20u8] + d) + seq![0x0Au8] + (mnemonic_of(Opcode::Sub) + seq![0x20u8] + d)
        + seq![0x0Au8] + mnemonic_of(Opcode::Print) + seq![0x0Au8] + mnemonic_of(Opcode::Halt)
}

/// The source text `SET 0; ADD n; SUB n; PRINT; HALT`, with `n` written in
/// decimal, assembles to `[SET, 0, ADD, n, SUB, n, PRINT, HALT]`; run with a
/// budget of at least five steps, it prints exactly `0` and halts.
pub proof fn lemma_add_sub_source(d: Seq<u8>, fuel: nat)
    requires
        d.len() > 0,
        all_digits(d),
        decimal_value(d) <= u32::MAX,
        fuel >= 5,
    ensures
        assembly(add_sub_text(d)) == Ok::<Seq<u32>, crate::assembler::AsmErr>(
            seq![0x07u32, 0, 0x01, decimal_value(d) as u32, 0x02, decimal_value(d) as u32, 0x03, 0x0A],
        ),
        run(initial(assembly(add_sub_text(d))->Ok_0, 0), fuel).1 == seq![0u32],
        run(initial(assembly(add_sub_text(d))->Ok_0, 0), fuel).2 == Status::Halted,
{
    let n = decimal_value(d) as u32;
    let zero = seq![0x30u8];
    let l1 = mnemonic_of(Opcode::SetAcc) + seq![0x20u8] + zero;
    let l2 = mnemonic_of(Opcode::Add) + seq![0x20u8] + d;
    let l3 = mnemonic_of(Opcode::Sub) + seq![0x20u8] + d;
    let l4 = mnemonic_of(Opcode::Print);
    let l5 = mnemonic_of(Opcode::Halt);
    let nl = seq![0x0Au8];
    assert(all_digits(zero) && decimal_value(zero) == 0) by {
        assert(zero.drop_last() =~= Seq::<u8>::empty());
        assert(decimal_value(zero.drop_last()) == 0);
        assert(zero.last() == 0x30);
        assert forall|i: int| 0 <= i < zero.len() implies is_digit(zero[i]) by {
            assert(i == 0);
        }
    }
    lemma_operand_line(Opcode::SetAcc, zero);
    lemma_operand_line(Opcode::Add, d);
    lemma_operand_line(Opcode::Sub, d);
    lemma_tokens_single(l4);
    lemma_tokens_single(l5);
    lemma_mnemonic_round_trip(Opcode::Print);
    lemma_mnemonic_round_trip(Opcode::Halt);
    let s2 = l1 + nl + l2;
    let s3 = s2 + nl + l3;
    let s4 = s3 + nl + l4;
    let src = add_sub_text(d);
    assert(src =~= s4 + nl + l5);
    lemma_lines_single(l1);
    lemma_lines_append(l1, l2);
    lemma_lines_append(s2, l3);
    lemma_lines_append(s3, l4);
    lemma_lines_append(s4, l5);
    let ls = lines_of(src);
    assert(ls =~= seq![l1, l2, l3, l4, l5]);
    let pre1 = seq![l1];
    let pre2 = seq![l1, l2];
    let pre3 = seq![l1, l2, l3];
    let pre4 = seq![l1, l2, l3, l4];
    assert(ls.drop_last() =~= pre4);
    assert(pre4.drop_last() =~= pre3);
    assert(pre3.drop_last() =~= pre2);
    assert(pre2.drop_last() =~= pre1);
    assert(pre1.drop_last() =~= Seq::<Seq<u8>>::empty());
    let empty = Seq::<(Seq<u8>, u32)>::empty();
    assert(layout(pre1.drop_last()) == Ok::<(Labels, nat), crate::assembler::AsmErr>((empty, 0)));
    assert(layout(pre1) == Ok::<(Labels, nat), crate::assembler::AsmErr>((empty, 2)));
    assert(layout(pre2) == Ok::<(Labels, nat), crate::assembler::AsmErr>((empty, 4)));
    assert(layout(pre3) == Ok::<(Labels, nat), crate::assembler::AsmErr>((empty, 6)));
    assert(layout(pre4) == Ok::<(Labels, nat), crate::assembler::AsmErr>((empty, 7)));
    assert(layout(ls) == Ok::<(Labels, nat), crate::assembler::AsmErr>((empty, 8)));
    assert(is_digit(d[0]) && is_digit(zero[0]));
    assert(operand_value(d, empty) == Ok::<u32, crate::assembler::AsmErrorKind>(n));
    assert(operand_value(zero, empty) == Ok::<u32, crate::assembler::AsmErrorKind>(0));
    assert(emit(pre1.drop_last(), empty) == Ok::<Seq<u32>, crate::assembler::AsmErr>(Seq::empty()));
    let w1 = Seq::<u32>::empty().push(0x07u32).push(0);
    let w2 = w1.push(0x01).push(n);
    let w3 = w2.push(0x02).push(n);
    assert(emit(pre1, empty) == Ok::<Seq<u32>, crate::assembler::AsmErr>(w1));
    assert(emit(pre2, empty) == Ok::<Seq<u32>, crate::assembler::AsmErr>(w2));
    assert(emit(pre3, empty) == Ok::<Seq<u32>, crate::assembler::AsmErr>(w3));
    assert(emit(pre4, empty) == Ok::<Seq<u32>, crate::assembler::AsmErr>(w3.push(0x03)));
    assert(emit(ls, empty) == Ok::<Seq<u32>, crate::assembler::AsmErr>(w3.push(0x03).push(0x0A)));
    assert(w3.push(0x03).push(0x0A) =~= seq![0x07u32, 0, 0x01, n, 0x02, n, 0x03, 0x0A]);
    lemma_add_sub_inverse(n, fuel);
}

} // verus!
