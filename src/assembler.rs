//! The two-pass assembler: from mnemonic source text to code words.
//!
//! Each line holds an optional `name:` label definition, then an optional
//! instruction: a mnemonic, and for ADD, SUB, JMP, SET and CALL one operand,
//! a decimal literal or a label name. A line whose first token starts with
//! `#` is a comment. The first pass assigns each label the address of the
//! word that follows it; the second emits the words, resolving labels
//! defined before or after their use alike.
use vstd::prelude::*;
use crate::binary::{encode_words, le_bytes};
use vstd::string::StringSliceAdditionalSpecFns;
use crate::lexer::{bytes_eq, lines_of, split_lines, tokenize, tokens_of, views_of};
use crate::opcode::{code_of, op_of_mnemonic, takes_operand, width_of, Opcode};

verus! {

/// The kinds of assembly error.
#[derive(Clone, Copy, Debug, PartialEq, Eq, Structural)]
pub enum AsmErrorKind {
    /// The instruction token names no instruction.
    UnknownMnemonic,
    /// An instruction that needs an operand has none.
    MissingOperand,
    /// A token follows a complete instruction.
    UnexpectedToken,
    /// A label name is defined a second time.
    DuplicateLabel,
    /// An operand names a label that no line defines.
    UnresolvedLabel,
    /// An operand starts with a digit but is no decimal number below 2^32.
    MalformedLiteral,
    /// The program would not fit in 32-bit word addresses.
    ProgramTooLarge,
}

/// An assembly error: its kind, the 1-based line number, the offending token
/// and the raw text of the line.
#[derive(Debug)]
pub struct AsmError {
    pub kind: AsmErrorKind,
    pub line: usize,
    pub token: Vec<u8>,
    pub text: Vec<u8>,
}

/// An assembly error in the abstract: kind, line number, token, line text.
pub type AsmErr = (AsmErrorKind, nat, Seq<u8>, Seq<u8>);

impl View for AsmError {
    type V = AsmErr;

    open spec fn view(&self) -> AsmErr {
        (self.kind, self.line as nat, self.token@, self.text@)
    }
}

/// What a line holds: a label name, an instruction and its raw operand.
pub type LineParts = (Option<Seq<u8>>, Option<Opcode>, Option<Seq<u8>>);

/// A parsed line: an optional label definition, an optional instruction,
/// and the operand token of an instruction that takes one.
#[derive(Debug)]
pub struct ParsedLine {
    pub label: Option<Vec<u8>>,
    pub op: Option<Opcode>,
    pub arg: Option<Vec<u8>>,
}

pub open spec fn opt_bytes(o: Option<Vec<u8>>) -> Option<Seq<u8>> {
    match o {
        Some(v) => Some(v@),
        None => None,
    }
}

impl View for ParsedLine {
    type V = LineParts;

    open spec fn view(&self) -> LineParts {
        (opt_bytes(self.label), self.op, opt_bytes(self.arg))
    }
}

/// A token that defines a label: a name followed by a colon.
pub open spec fn is_label_def(t: Seq<u8>) -> bool {
    t.len() >= 2 && t.last() == 0x3A
}

/// A token that starts a comment.
pub open spec fn is_comment(t: Seq<u8>) -> bool {
    t.len() > 0 && t[0] == 0x23
}

/// The instruction part of a line, after any label definition.
pub open spec fn parse_instr(label: Option<Seq<u8>>, rest: Seq<Seq<u8>>) -> Result<
    LineParts,
    (AsmErrorKind, Seq<u8>),
> {
    if rest.len() == 0 {
        Ok((label, None, None))
    } else {
        match op_of_mnemonic(rest[0]) {
            None => Err((AsmErrorKind::UnknownMnemonic, rest[0])),
            Some(op) => if takes_operand(op) {
                if rest.len() < 2 {
                    Err((AsmErrorKind::MissingOperand, rest[0]))
                } else if rest.len() > 2 {
                    Err((AsmErrorKind::UnexpectedToken, rest[2]))
                } else {
                    Ok((label, Some(op), Some(rest[1])))
                }
            } else if rest.len() > 1 {
                Err((AsmErrorKind::UnexpectedToken, rest[1]))
            } else {
                Ok((label, Some(op), None))
            },
        }
    }
}

/// The parts of a line given its tokens, or the error kind and the token at
/// fault.
pub open spec fn parse_tokens(t: Seq<Seq<u8>>) -> Result<LineParts, (AsmErrorKind, Seq<u8>)> {
    if t.len() == 0 || is_comment(t[0]) {
        Ok((None, None, None))
    } else if is_label_def(t[0]) {
        parse_instr(Some(t[0].drop_last()), t.drop_first())
    } else {
        parse_instr(None, t)
    }
}

/// A label table: names with their word addresses, in definition order.
pub type Labels = Seq<(Seq<u8>, u32)>;

/// The address of the latest definition of `name` in `tab`.
pub open spec fn lookup(tab: Labels, name: Seq<u8>) -> Option<u32>
    decreases tab.len(),
{
    if tab.len() == 0 {
        None
    } else if tab.last().0 == name {
        Some(tab.last().1)
    } else {
        lookup(tab.drop_last(), name)
    }
}

/// Number of words the instruction of a line occupies.
pub open spec fn parts_width(p: LineParts) -> nat {
    match p.1 {
        Some(op) => width_of(op),
        None => 0,
    }
}

/// The first pass over `ls`: the label table and the address after the
/// last line, or the first error.
pub open spec fn layout(ls: Seq<Seq<u8>>) -> Result<(Labels, nat), AsmErr>
    decreases ls.len(),
{
    if ls.len() == 0 {
        Ok((Seq::empty(), 0))
    } else {
        match layout(ls.drop_last()) {
            Err(e) => Err(e),
            Ok((tab, addr)) => match parse_tokens(tokens_of(ls.last())) {
                Err((k, tok)) => Err((k, ls.len(), tok, ls.last())),
                Ok(p) => match p.0 {
                    Some(name) => if lookup(tab, name) is Some {
                        Err((AsmErrorKind::DuplicateLabel, ls.len(), name, ls.last()))
                    } else if addr + parts_width(p) > u32::MAX {
                        Err((AsmErrorKind::ProgramTooLarge, ls.len(), Seq::empty(), ls.last()))
                    } else {
                        Ok((tab.push((name, addr as u32)), addr + parts_width(p)))
                    },
                    None => if addr + parts_width(p) > u32::MAX {
                        Err((AsmErrorKind::ProgramTooLarge, ls.len(), Seq::empty(), ls.last()))
                    } else {
                        Ok((tab, addr + parts_width(p)))
                    },
                },
            },
        }
    }
}

pub open spec fn is_digit(c: u8) -> bool {
    0x30 <= c <= 0x39
}

pub open spec fn all_digits(s: Seq<u8>) -> bool {
    forall|i: int| 0 <= i < s.len() ==> is_digit(s[i])
}

/// The number that a string of decimal digits denotes.
pub open spec fn decimal_value(s: Seq<u8>) -> nat
    decreases s.len(),
{
    if s.len() == 0 {
        0
    } else {
        decimal_value(s.drop_last()) * 10 + (s.last() - 0x30) as nat
    }
}

/// A token that is a decimal literal whose value fits in a word.
pub open spec fn is_literal(arg: Seq<u8>) -> bool {
    arg.len() > 0 && all_digits(arg) && decimal_value(arg) <= u32::MAX
}

/// A token that reads as an attempt at a number: it starts with a digit or
/// a minus sign.
pub open spec fn looks_numeric(arg: Seq<u8>) -> bool {
    arg.len() > 0 && (is_digit(arg[0]) || arg[0] == 0x2D)
}

/// The word an operand token stands for: a decimal literal, or else the
/// address of a label. A token that is neither is a malformed literal if it
/// looks like a number, and an unresolved label otherwise.
pub open spec fn operand_value(arg: Seq<u8>, tab: Labels) -> Result<u32, AsmErrorKind> {
    if is_literal(arg) {
        Ok(decimal_value(arg) as u32)
    } else {
        match lookup(tab, arg) {
            Some(a) => Ok(a),
            None => if looks_numeric(arg) {
                Err(AsmErrorKind::MalformedLiteral)
            } else {
                Err(AsmErrorKind::UnresolvedLabel)
            },
        }
    }
}

/// The second pass over `ls` with the label table `tab`: the code words, or
/// the first error.
pub open spec fn emit(ls: Seq<Seq<u8>>, tab: Labels) -> Result<Seq<u32>, AsmErr>
    decreases ls.len(),
{
    if ls.len() == 0 {
        Ok(Seq::empty())
    } else {
        match emit(ls.drop_last(), tab) {
            Err(e) => Err(e),
            Ok(ws) => match parse_tokens(tokens_of(ls.last())) {
                Err((k, tok)) => Err((k, ls.len(), tok, ls.last())),
                Ok((_, None, _)) => Ok(ws),
                Ok((_, Some(op), None)) => Ok(ws.push(code_of(op))),
                Ok((_, Some(op), Some(arg))) => match operand_value(arg, tab) {
                    Err(k) => Err((k, ls.len(), arg, ls.last())),
                    Ok(v) => Ok(ws.push(code_of(op)).push(v)),
                },
            },
        }
    }
}

/// The code words of a source text, or the first assembly error: every
/// error of the first pass comes before any of the second.
pub open spec fn assembly(src: Seq<u8>) -> Result<Seq<u32>, AsmErr> {
    match layout(lines_of(src)) {
        Err(e) => Err(e),
        Ok((tab, _)) => emit(lines_of(src), tab),
    }
}

/// The instruction kind whose mnemonic is `tok`, if any.
pub fn lookup_mnemonic(tok: &[u8]) -> (r: Option<Opcode>)
    ensures
        r == op_of_mnemonic(tok@),
{
    if bytes_eq(tok, Opcode::Add.mnemonic().as_slice()) {
        Some(Opcode::Add)
    } else if bytes_eq(tok, Opcode::Sub.mnemonic().as_slice()) {
        Some(Opcode::Sub)
    } else if bytes_eq(tok, Opcode::Print.mnemonic().as_slice()) {
        Some(Opcode::Print)
    } else if bytes_eq(tok, Opcode::Jmp.mnemonic().as_slice()) {
        Some(Opcode::Jmp)
    } else if bytes_eq(tok, Opcode::Push.mnemonic().as_slice()) {
        Some(Opcode::Push)
    } else if bytes_eq(tok, Opcode::Pop.mnemonic().as_slice()) {
        Some(Opcode::Pop)
    } else if bytes_eq(tok, Opcode::SetAcc.mnemonic().as_slice()) {
        Some(Opcode::SetAcc)
    } else if bytes_eq(tok, Opcode::Call.mnemonic().as_slice()) {
        Some(Opcode::Call)
    } else if bytes_eq(tok, Opcode::Ret.mnemonic().as_slice()) {
        Some(Opcode::Ret)
    } else if bytes_eq(tok, Opcode::Halt.mnemonic().as_slice()) {
        Some(Opcode::Halt)
    } else {
        None
    }
}

/// Parses the tokens of one line into its label, instruction and operand.
pub fn parse_line(toks: &Vec<Vec<u8>>) -> (r: Result<ParsedLine, (AsmErrorKind, Vec<u8>)>)
    ensures
        match (r, parse_tokens(views_of(toks@))) {
            (Ok(p), Ok(q)) => p@ == q,
            (Err((k, t)), Err((k2, t2))) => k == k2 && t@ == t2,
            _ => false,
        },
{
    let ghost t = views_of(toks@);
    let n = toks.len();
    if n == 0 {
        return Ok(ParsedLine { label: None, op: None, arg: None });
    }
    proof {
        assert(t[0] == toks@[0]@);
    }
    let first = toks[0].as_slice();
    if first.len() > 0 && first[0] == 0x23 {
        return Ok(ParsedLine { label: None, op: None, arg: None });
    }
    let mut start: usize = 0;
    let mut label: Option<Vec<u8>> = None;
    if first.len() >= 2 && first[first.len() - 1] == 0x3A {
        let mut name = vstd::slice::slice_to_vec(first);
        name.pop();
        label = Some(name);
        start = 1;
    }
    let ghost rest = t.subrange(start as int, t.len() as int);
    proof {
        if start == 1 {
            assert(rest =~= t.drop_first());
            assert(label.unwrap()@ =~= t[0].drop_last());
        } else {
            assert(rest =~= t);
        }
    }
    if start == n {
        return Ok(ParsedLine { label, op: None, arg: None });
    }
    proof {
        assert(rest[0] == toks@[start as int]@);
    }
    let op = match lookup_mnemonic(toks[start].as_slice()) {
        None => return Err((AsmErrorKind::UnknownMnemonic, vstd::slice::slice_to_vec(toks[start].as_slice()))),
        Some(op) => op,
    };
    if op.has_operand() {
        if n - start < 2 {
            return Err((AsmErrorKind::MissingOperand, vstd::slice::slice_to_vec(toks[start].as_slice())));
        }
        proof {
            assert(rest[1] == toks@[start + 1]@);
        }
        if n - start > 2 {
            proof {
                assert(rest[2] == toks@[start + 2]@);
            }
            return Err((AsmErrorKind::UnexpectedToken, vstd::slice::slice_to_vec(toks[start + 2].as_slice())));
        }
        let arg = vstd::slice::slice_to_vec(toks[start + 1].as_slice());
        Ok(ParsedLine { label, op: Some(op), arg: Some(arg) })
    } else {
        if n - start > 1 {
            proof {
                assert(rest[1] == toks@[start + 1]@);
            }
            return Err((AsmErrorKind::UnexpectedToken, vstd::slice::slice_to_vec(toks[start + 1].as_slice())));
        }
        Ok(ParsedLine { label, op: Some(op), arg: None })
    }
}

/// The label table held in two parallel vectors.
pub open spec fn table_of(names: Seq<Vec<u8>>, addrs: Seq<u32>) -> Labels {
    Seq::new(names.len(), |i: int| (names[i]@, addrs[i]))
}

/// The address of the latest definition of `name`, if any.
pub fn find_label(names: &Vec<Vec<u8>>, addrs: &Vec<u32>, name: &[u8]) -> (r: Option<u32>)
    requires
        names@.len() == addrs@.len(),
    ensures
        r == lookup(table_of(names@, addrs@), name@),
{
    let ghost tab = table_of(names@, addrs@);
    let mut i: usize = names.len();
    proof {
        assert(tab.take(i as int) =~= tab);
    }
    while i > 0
        invariant
            i <= names@.len(),
            names@.len() == addrs@.len(),
            tab == table_of(names@, addrs@),
            lookup(tab, name@) == lookup(tab.take(i as int), name@),
        decreases i,
    {
        let ghost pre = tab.take(i as int);
        proof {
            assert(pre.drop_last() =~= tab.take(i - 1));
            assert(pre.last() == (names@[i - 1]@, addrs@[i - 1]));
        }
        if bytes_eq(names[i - 1].as_slice(), name) {
            return Some(addrs[i - 1]);
        }
        i = i - 1;
    }
    None
}

proof fn lemma_value_prefix(s: Seq<u8>, k: int)
    requires
        0 <= k <= s.len(),
        all_digits(s),
    ensures
        decimal_value(s.take(k)) <= decimal_value(s),
    decreases s.len(),
{
    if k < s.len() {
        assert(s.drop_last().take(k) =~= s.take(k));
        lemma_value_prefix(s.drop_last(), k);
    } else {
        assert(s.take(k) =~= s);
    }
}

/// Reads a decimal literal; `None` unless all bytes are digits and the value
/// fits in a word.
pub fn parse_literal(tok: &[u8]) -> (r: Option<u32>)
    ensures
        r == (if all_digits(tok@) && decimal_value(tok@) <= u32::MAX {
            Some(decimal_value(tok@) as u32)
        } else {
            None
        }),
{
    let mut acc: u64 = 0;
    let mut i: usize = 0;
    while i < tok.len()
        invariant
            i <= tok@.len(),
            acc == decimal_value(tok@.take(i as int)),
            acc <= u32::MAX,
            all_digits(tok@.take(i as int)),
        decreases tok@.len() - i,
    {
        let c = tok[i];
        proof {
            assert(tok@.take(i + 1).drop_last() =~= tok@.take(i as int));
        }
        if c < 0x30 || c > 0x39 {
            return None;
        }
        acc = acc * 10 + (c - 0x30) as u64;
        if acc > 0xFFFF_FFFF {
            proof {
                if all_digits(tok@) {
                    lemma_value_prefix(tok@, i + 1);
                }
            }
            return None;
        }
        i = i + 1;
    }
    proof {
        assert(tok@.take(i as int) =~= tok@);
    }
    Some(acc as u32)
}

/// The word an operand token stands for, or why it stands for none.
pub fn resolve_operand(arg: &[u8], names: &Vec<Vec<u8>>, addrs: &Vec<u32>) -> (r: Result<
    u32,
    AsmErrorKind,
>)
    requires
        names@.len() == addrs@.len(),
    ensures
        r == operand_value(arg@, table_of(names@, addrs@)),
{
    if arg.len() > 0 {
        if let Some(v) = parse_literal(arg) {
            return Ok(v);
        }
    }
    match find_label(names, addrs, arg) {
        Some(a) => Ok(a),
        None => if arg.len() > 0 && ((0x30 <= arg[0] && arg[0] <= 0x39) || arg[0] == 0x2D) {
            Err(AsmErrorKind::MalformedLiteral)
        } else {
            Err(AsmErrorKind::UnresolvedLabel)
        },
    }
}

proof fn lemma_layout_err_prefix(ls: Seq<Seq<u8>>, k: int)
    requires
        0 <= k <= ls.len(),
        layout(ls.take(k)) is Err,
    ensures
        layout(ls) == layout(ls.take(k)),
    decreases ls.len(),
{
    if k < ls.len() {
        assert(ls.drop_last().take(k) =~= ls.take(k));
        lemma_layout_err_prefix(ls.drop_last(), k);
    } else {
        assert(ls.take(k) =~= ls);
    }
}

proof fn lemma_emit_err_prefix(ls: Seq<Seq<u8>>, tab: Labels, k: int)
    requires
        0 <= k <= ls.len(),
        emit(ls.take(k), tab) is Err,
    ensures
        emit(ls, tab) == emit(ls.take(k), tab),
    decreases ls.len(),
{
    if k < ls.len() {
        assert(ls.drop_last().take(k) =~= ls.take(k));
        lemma_emit_err_prefix(ls.drop_last(), tab, k);
    } else {
        assert(ls.take(k) =~= ls);
    }
}

/// Assembles source text to code words: a label table from a first pass
/// over all lines, then the words from a second. All or nothing: on error
/// no word is returned.
pub fn assemble_words(src: &[u8]) -> (r: Result<Vec<u32>, AsmError>)
    ensures
        match (r, assembly(src@)) {
            (Ok(w), Ok(s)) => w@ == s,
            (Err(e), Err(s)) => e@ == s,
            _ => false,
        },
{
    let lines = split_lines(src);
    let ghost ls = lines_of(src@);
    let mut names: Vec<Vec<u8>> = Vec::new();
    let mut addrs: Vec<u32> = Vec::new();
    let mut addr: u64 = 0;
    let mut i: usize = 0;
    proof {
        assert(ls.take(0) =~= Seq::<Seq<u8>>::empty());
        assert(table_of(names@, addrs@) =~= Seq::empty());
    }
    while i < lines.len()
        invariant
            ls == views_of(lines@),
            ls == lines_of(src@),
            i <= lines@.len(),
            names@.len() == addrs@.len(),
            addr <= u32::MAX,
            layout(ls.take(i as int)) == Ok::<(Labels, nat), AsmErr>((table_of(names@, addrs@), addr as nat)),
        decreases lines@.len() - i,
    {
        proof {
            assert(ls.take(i + 1).drop_last() =~= ls.take(i as int));
            assert(ls.take(i + 1).last() == lines@[i as int]@);
        }
        let toks = tokenize(lines[i].as_slice());
        let p = match parse_line(&toks) {
            Err((kind, token)) => {
                proof {
                    lemma_layout_err_prefix(ls, i + 1);
                }
                let text = vstd::slice::slice_to_vec(lines[i].as_slice());
                return Err(AsmError { kind, line: i + 1, token, text });
            },
            Ok(p) => p,
        };
        let width: u64 = match p.op {
            Some(op) => if op.has_operand() {
                2
            } else {
                1
            },
            None => 0,
        };
        let duplicate = match &p.label {
            Some(name) => find_label(&names, &addrs, name.as_slice()).is_some(),
            None => false,
        };
        if duplicate {
            proof {
                lemma_layout_err_prefix(ls, i + 1);
            }
            let text = vstd::slice::slice_to_vec(lines[i].as_slice());
            let token = p.label.unwrap();
            return Err(AsmError { kind: AsmErrorKind::DuplicateLabel, line: i + 1, token, text });
        }
        if addr + width > 0xFFFF_FFFF {
            proof {
                lemma_layout_err_prefix(ls, i + 1);
            }
            let text = vstd::slice::slice_to_vec(lines[i].as_slice());
            return Err(AsmError { kind: AsmErrorKind::ProgramTooLarge, line: i + 1, token: Vec::new(), text });
        }
        match p.label {
            Some(name) => {
                let ghost tab = table_of(names@, addrs@);
                let ghost nm = name@;
                names.push(name);
                addrs.push(addr as u32);
                proof {
                    assert(table_of(names@, addrs@) =~= tab.push((nm, addr as u32)));
                }
            },
            None => {},
        }
        addr = addr + width;
        i = i + 1;
    }
    proof {
        assert(ls.take(i as int) =~= ls);
    }
    let ghost tab = table_of(names@, addrs@);
    let mut out: Vec<u32> = Vec::new();
    let mut i: usize = 0;
    proof {
        assert(ls.take(0) =~= Seq::<Seq<u8>>::empty());
    }
    while i < lines.len()
        invariant
            ls == views_of(lines@),
            ls == lines_of(src@),
            i <= lines@.len(),
            names@.len() == addrs@.len(),
            tab == table_of(names@, addrs@),
            layout(ls) is Ok,
            layout(ls)->Ok_0.0 == tab,
            emit(ls.take(i as int), tab) == Ok::<Seq<u32>, AsmErr>(out@),
        decreases lines@.len() - i,
    {
        proof {
            assert(ls.take(i + 1).drop_last() =~= ls.take(i as int));
            assert(ls.take(i + 1).last() == lines@[i as int]@);
        }
        let toks = tokenize(lines[i].as_slice());
        let p = match parse_line(&toks) {
            Err((kind, token)) => {
                proof {
                    lemma_emit_err_prefix(ls, tab, i + 1);
                }
                let text = vstd::slice::slice_to_vec(lines[i].as_slice());
                return Err(AsmError { kind, line: i + 1, token, text });
            },
            Ok(p) => p,
        };
        match p.op {
            None => {},
            Some(op) => {
                out.push(op.code());
                match p.arg {
                    None => {},
                    Some(arg) => match resolve_operand(arg.as_slice(), &names, &addrs) {
                        Err(kind) => {
                            proof {
                                lemma_emit_err_prefix(ls, tab, i + 1);
                            }
                            let text = vstd::slice::slice_to_vec(lines[i].as_slice());
                            return Err(AsmError { kind, line: i + 1, token: arg, text });
                        },
                        Ok(v) => {
                            out.push(v);
                        },
                    },
                }
            },
        }
        i = i + 1;
    }
    proof {
        assert(ls.take(i as int) =~= ls);
    }
    Ok(out)
}

/// Assembles source text to a binary program: the code words as consecutive
/// little-endian bytes.
pub fn assemble(src: &str) -> (r: Result<Vec<u8>, AsmError>)
    ensures
        match (r, assembly(src.spec_bytes())) {
            (Ok(b), Ok(ws)) => b@ == le_bytes(ws),
            (Err(e), Err(s)) => e@ == s,
            _ => false,
        },
{
    let words = assemble_words(src.as_bytes())?;
    Ok(encode_words(words.as_slice()))
}

/// The word address at which line `j` of `ls` starts.
pub open spec fn line_address(ls: Seq<Seq<u8>>, j: int) -> nat {
    match layout(ls.take(j)) {
        Ok((_, a)) => a,
        Err(_) => 0,
    }
}

/// A label defined on line `j` is in the final table at that line's address.
proof fn lemma_defined_label_in_table(ls: Seq<Seq<u8>>, j: int, name: Seq<u8>)
    requires
        layout(ls) is Ok,
        0 <= j < ls.len(),
        parse_tokens(tokens_of(ls[j])) is Ok,
        parse_tokens(tokens_of(ls[j]))->Ok_0.0 == Some(name),
    ensures
        lookup(layout(ls)->Ok_0.0, name) == Some(line_address(ls, j) as u32),
    decreases ls.len(),
{
    let pre = ls.drop_last();
    if layout(pre) is Err {
        assert(pre =~= ls.take(ls.len() - 1));
        lemma_layout_err_prefix(ls, ls.len() - 1);
    }
    if j < ls.len() - 1 {
        assert(pre[j] == ls[j]);
        lemma_defined_label_in_table(pre, j, name);
        assert(pre.take(j) =~= ls.take(j));
        let tab0 = layout(pre)->Ok_0.0;
        let p = parse_tokens(tokens_of(ls.last()))->Ok_0;
        if let Some(n2) = p.0 {
            assert(lookup(tab0, n2) is None);
            assert(n2 != name);
            let grown = tab0.push((n2, layout(pre)->Ok_0.1 as u32));
            assert(grown.drop_last() =~= tab0);
            assert(lookup(grown, name) == lookup(tab0, name));
        }
    } else {
        assert(ls.take(j) =~= pre);
    }
}

/// A successful second pass has a successful, leading second pass on each
/// prefix of the lines.
proof fn lemma_emit_prefix(ls: Seq<Seq<u8>>, tab: Labels, k: int)
    requires
        emit(ls, tab) is Ok,
        0 <= k <= ls.len(),
    ensures
        emit(ls.take(k), tab) is Ok,
        emit(ls.take(k), tab)->Ok_0.len() <= emit(ls, tab)->Ok_0.len(),
        emit(ls, tab)->Ok_0.take(emit(ls.take(k), tab)->Ok_0.len() as int) == emit(
            ls.take(k),
            tab,
        )->Ok_0,
    decreases ls.len(),
{
    if k == ls.len() {
        assert(ls.take(k) =~= ls);
        assert(emit(ls, tab)->Ok_0.take(emit(ls, tab)->Ok_0.len() as int) =~= emit(ls, tab)->Ok_0);
    } else {
        let pre = ls.drop_last();
        assert(pre.take(k) =~= ls.take(k));
        lemma_emit_prefix(pre, tab, k);
        let a = emit(ls.take(k), tab)->Ok_0;
        let b = emit(pre, tab)->Ok_0;
        let c = emit(ls, tab)->Ok_0;
        assert(c.take(b.len() as int) =~= b);
        assert(c.take(a.len() as int) =~= b.take(a.len() as int));
    }
}

/// A label operand assembles to the address of the line that defines the
/// label, whether that definition comes before the use or after it: the
/// opcode word of line `i` is followed by the address of line `j`.
pub proof fn lemma_label_reference_resolves(
    src: Seq<u8>,
    i: int,
    j: int,
    op: Opcode,
    name: Seq<u8>,
)
    requires
        assembly(src) is Ok,
        0 <= i < lines_of(src).len(),
        0 <= j < lines_of(src).len(),
        parse_tokens(tokens_of(lines_of(src)[j])) is Ok,
        parse_tokens(tokens_of(lines_of(src)[j]))->Ok_0.0 == Some(name),
        parse_tokens(tokens_of(lines_of(src)[i])) is Ok,
        parse_tokens(tokens_of(lines_of(src)[i]))->Ok_0.1 == Some(op),
        parse_tokens(tokens_of(lines_of(src)[i]))->Ok_0.2 == Some(name),
        !is_literal(name),
    ensures
        ({
            let ls = lines_of(src);
            let tab = layout(ls)->Ok_0.0;
            let k = emit(ls.take(i), tab)->Ok_0.len() as int;
            let ws = assembly(src)->Ok_0;
            &&& k + 1 < ws.len()
            &&& ws[k] == code_of(op)
            &&& ws[k + 1] == line_address(ls, j) as u32
        }),
{
    let ls = lines_of(src);
    let tab = layout(ls)->Ok_0.0;
    lemma_defined_label_in_table(ls, j, name);
    lemma_emit_prefix(ls, tab, i + 1);
    lemma_emit_prefix(ls, tab, i);
    assert(ls.take(i + 1).drop_last() =~= ls.take(i));
    assert(ls.take(i + 1).last() == ls[i]);
    let a = emit(ls.take(i), tab)->Ok_0;
    let b = emit(ls.take(i + 1), tab)->Ok_0;
    let ws = emit(ls, tab)->Ok_0;
    assert(b == a.push(code_of(op)).push(line_address(ls, j) as u32));
    assert(ws.take(b.len() as int)[a.len() as int] == ws[a.len() as int]);
    assert(ws.take(b.len() as int)[a.len() + 1 as int] == ws[a.len() + 1 as int]);
}

/// The words that line `l` contributes, with the label table `tab`: its
/// opcode word, then the word its operand stands for.
pub open spec fn line_words(l: Seq<u8>, tab: Labels) -> Seq<u32> {
    match parse_tokens(tokens_of(l)) {
        Ok((_, Some(op), None)) => seq![code_of(op)],
        Ok((_, Some(op), Some(arg))) => match operand_value(arg, tab) {
            Ok(v) => seq![code_of(op), v],
            Err(_) => Seq::empty(),
        },
        _ => Seq::empty(),
    }
}

proof fn lemma_emit_lines(ls1: Seq<Seq<u8>>, tab1: Labels, ls2: Seq<Seq<u8>>, tab2: Labels)
    requires
        emit(ls1, tab1) is Ok,
        emit(ls2, tab2) is Ok,
        ls1.len() == ls2.len(),
        forall|i: int| 0 <= i < ls1.len() ==> line_words(ls1[i], tab1) == line_words(ls2[i], tab2),
    ensures
        emit(ls1, tab1) == emit(ls2, tab2),
    decreases ls1.len(),
{
    if ls1.len() > 0 {
        let a = ls1.drop_last();
        let b = ls2.drop_last();
        assert forall|i: int| 0 <= i < a.len() implies line_words(a[i], tab1) == line_words(
            b[i],
            tab2,
        ) by {
            assert(a[i] == ls1[i] && b[i] == ls2[i]);
        }
        lemma_emit_lines(a, tab1, b, tab2);
        let w = emit(a, tab1)->Ok_0;
        assert(line_words(ls1.last(), tab1) == line_words(ls2.last(), tab2));
        assert(emit(ls1, tab1)->Ok_0 =~= w + line_words(ls1.last(), tab1));
        assert(emit(ls2, tab2)->Ok_0 =~= w + line_words(ls2.last(), tab2));
    }
}

/// Two sources that assemble, line for line, to the same opcodes and the
/// same operand words, each label operand taken as the address of its
/// definition, give identical binaries: where a label is defined, before its
/// use or after it, makes no difference.
pub proof fn lemma_same_resolved_lines_same_binary(src1: Seq<u8>, src2: Seq<u8>)
    requires
        assembly(src1) is Ok,
        assembly(src2) is Ok,
        lines_of(src1).len() == lines_of(src2).len(),
        forall|i: int|
            0 <= i < lines_of(src1).len() ==> line_words(
                lines_of(src1)[i],
                layout(lines_of(src1))->Ok_0.0,
            ) == line_words(lines_of(src2)[i], layout(lines_of(src2))->Ok_0.0),
    ensures
        assembly(src1) == assembly(src2),
        le_bytes(assembly(src1)->Ok_0) == le_bytes(assembly(src2)->Ok_0),
{
    lemma_emit_lines(
        lines_of(src1),
        layout(lines_of(src1))->Ok_0.0,
        lines_of(src2),
        layout(lines_of(src2))->Ok_0.0,
    );
}

} // verus!
