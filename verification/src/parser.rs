use vstd::prelude::*;

use crate::compile::{compiled, encode_ops, lemma_encode_push};
use crate::op::{op_size, operand_of, Op};
use crate::parse_error::ParseError;
use crate::symbols::{has_key, lemma_lookup_none, lemma_lookup_push, lookup, Symbols};
use crate::text::{chars_to_string, collect_chars, push_char};

verus! {

/// One token of a source line.
#[derive(Debug, PartialEq)]
pub enum Tok {
    /// `name:` — a label definition.
    Label(String),
    /// A bare identifier: a mnemonic, a directive (with its leading dot), or
    /// a symbol reference.
    Ident(String),
    /// A decimal or hex numeric literal, already range-checked to a word.
    Num(u16),
    /// A double-quoted string literal with escapes resolved.
    Str(String),
}

/// The instruction denoted by a mnemonic, with `v` as its operand where the
/// instruction takes one.
pub open spec fn mnemonic_op(name: Seq<char>, v: u16) -> Option<Op> {
    if name == "noop"@ {
        Some(Op::Noop)
    } else if name == "halt"@ {
        Some(Op::Halt)
    } else if name == "eof"@ {
        Some(Op::Eof)
    } else if name == "push"@ {
        Some(Op::Push(v))
    } else if name == "pop"@ {
        Some(Op::Pop)
    } else if name == "dup"@ {
        Some(Op::Dup)
    } else if name == "swap"@ {
        Some(Op::Swap)
    } else if name == "load"@ {
        Some(Op::Load(v))
    } else if name == "store"@ {
        Some(Op::Store(v))
    } else if name == "load_string"@ {
        Some(Op::LoadString(v))
    } else if name == "jump"@ {
        Some(Op::Jump(v))
    } else if name == "jump_zero"@ {
        Some(Op::JumpZero(v))
    } else if name == "jump_not_zero"@ {
        Some(Op::JumpNotZero(v))
    } else if name == "call"@ {
        Some(Op::Call(v))
    } else if name == "return"@ {
        Some(Op::Return)
    } else if name == "print"@ {
        Some(Op::Print)
    } else if name == "send"@ {
        Some(Op::Send)
    } else {
        None
    }
}

/// Encoded size of the instruction a mnemonic denotes; zero for an unknown
/// mnemonic.
pub open spec fn inst_size(name: Seq<char>) -> nat {
    match mnemonic_op(name, 0) {
        Some(op) => op_size(op),
        None => 0,
    }
}

/// The mnemonic of an instruction line: its first token's identifier.
pub open spec fn line_name(line: Seq<Tok>) -> Seq<char> {
    if line.len() > 0 && line[0] is Ident {
        line[0]->Ident_0@
    } else {
        Seq::empty()
    }
}

/// Total encoded size of a sequence of instruction lines.
pub open spec fn insts_size(insts: Seq<Vec<Tok>>) -> nat
    decreases insts.len(),
{
    if insts.len() == 0 {
        0
    } else {
        insts_size(insts.drop_last()) + inst_size(line_name(insts.last()@))
    }
}

/// The variant and size an instruction takes do not depend on the operand.
proof fn lemma_mnemonic_stable(name: Seq<char>, a: u16, b: u16)
    ensures
        mnemonic_op(name, a) is Some <==> mnemonic_op(name, b) is Some,
        mnemonic_op(name, a) matches Some(x) ==> mnemonic_op(name, b) matches Some(y)
            && op_size(x) == op_size(y),
{
}

/// One recorded offset is consistent with the tables: a string name leaves
/// room for its text and terminator, a data name for its words, and a label
/// stays within `code_bound` words of code.
pub open spec fn offset_entry_ok(
    entry: (String, u16),
    strs: Seq<(String, String)>,
    dat: Seq<(String, Vec<u16>)>,
    code_bound: nat,
) -> bool {
    match lookup(strs, entry.0@) {
        Some(t) => entry.1 + t@.len() + 1 <= 0xFFFF,
        None => match lookup(dat, entry.0@) {
            Some(ws) => entry.1 + ws@.len() <= 0xFFFF,
            None => entry.1 <= code_bound,
        },
    }
}

/// `op` is what one instruction line assembles to, with its argument
/// resolved through the offset table: a bare mnemonic for an instruction
/// without operand, or a mnemonic with one numeric literal or one identifier
/// standing for its recorded offset.
pub open spec fn line_emits(line: Seq<Tok>, offs: Seq<(String, u16)>, op: Op) -> bool {
    &&& line.len() >= 1 && line[0] is Ident
    &&& if line.len() == 1 {
        mnemonic_op(line[0]->Ident_0@, 0) == Some(op) && operand_of(op) is None
    } else if line.len() == 2 {
        match line[1] {
            Tok::Num(v) => mnemonic_op(line[0]->Ident_0@, v) == Some(op) && operand_of(op)
                is Some,
            Tok::Ident(a) => lookup(offs, a@) matches Some(off) && mnemonic_op(
                line[0]->Ident_0@,
                off,
            ) == Some(op) && operand_of(op) is Some,
            _ => false,
        }
    } else {
        false
    }
}

/// The op stream is what some sequence of instruction lines emits, one op
/// per line, each resolved through the offset table.
pub open spec fn emitted_from_lines(offs: Seq<(String, u16)>, ops: Seq<Op>) -> bool {
    exists|insts: Seq<Vec<Tok>>| #[trigger] lines_emit(insts, offs, ops)
}

/// The op stream is exactly what a sequence of instruction lines emits, one
/// op per line, each resolved through the offset table.
pub open spec fn lines_emit(insts: Seq<Vec<Tok>>, offs: Seq<(String, u16)>, ops: Seq<Op>) -> bool {
    &&& ops.len() == insts.len()
    &&& forall|k: int| 0 <= k < insts.len() ==> line_emits(
        (#[trigger] insts[k])@,
        offs,
        ops[k],
    )
}

/// An assembled program: the instruction stream and the symbol table.
#[derive(Debug, PartialEq)]
pub struct Parser {
    pub ops: Vec<Op>,
    pub symbols: Symbols,
}

impl Parser {
    /// The symbol table is well formed; every string offset leaves room for
    /// the text and its terminator and every data offset for its words,
    /// within the address space; and every label offset lands strictly
    /// inside the compiled stream.
    pub open spec fn wf(self) -> bool {
        &&& self.symbols.wf()
        &&& forall|i: int| 0 <= i < self.symbols.offsets@.len()
            ==> offset_entry_ok(
                #[trigger] self.symbols.offsets@[i],
                self.symbols.strings@,
                self.symbols.data@,
                (compiled(self.ops@).len() - 1) as nat,
            )
    }

    /// Assembles `source`: tokenizes each line, collects labels, strings and
    /// data with their offsets (strings and data packed from address zero in
    /// declaration order, labels at their code offset), then emits one
    /// instruction per instruction line with symbol references resolved
    /// through the offset table.
    pub fn parse(source: &str) -> (r: Result<Parser, ParseError>)
        ensures
            r matches Ok(p) ==> p.wf(),
            r matches Ok(p) ==> emitted_from_lines(p.symbols.offsets@, p.ops@),
    {
        let chars = collect_chars(source);
        let n = chars.len();

        // Tokenize, line by line.
        let mut lines: Vec<Vec<Tok>> = Vec::new();
        let mut i: usize = 0;
        while i <= n
            invariant
                n == chars@.len(),
            decreases n - i,
        {
            let mut j: usize = i;
            while j < n && !char_is(chars[j], '\n')
                invariant
                    n == chars@.len(),
                    i <= j <= n,
                decreases n - j,
            {
                j = j + 1;
            }
            let toks = match tokenize_line(&chars, i, j) {
                Ok(t) => t,
                Err(e) => {
                    return Err(e);
                },
            };
            lines.push(toks);
            if j >= n {
                break;
            }
            i = j + 1;
        }

        // First pass: collect labels, strings and data; keep instruction
        // lines for the second pass.
        let mut symbols = Symbols::new();
        let mut insts: Vec<Vec<Tok>> = Vec::new();
        let mut code_off: u32 = 0;
        let mut data_off: u32 = 0;
        let nl = lines.len();
        let mut li: usize = 0;
        while li < nl
            invariant
                nl == lines@.len(),
                li <= nl,
                symbols.wf(),
                code_off == insts_size(insts@),
                code_off <= 0xFFFF,
                data_off <= 0xFFFF,
                forall|k: int| 0 <= k < symbols.offsets@.len()
                    ==> offset_entry_ok(
                        #[trigger] symbols.offsets@[k],
                        symbols.strings@,
                        symbols.data@,
                        code_off as nat,
                    ),
                forall|k: int| 0 <= k < symbols.strings@.len()
                    ==> has_key(symbols.offsets@, (#[trigger] symbols.strings@[k]).0@),
                forall|k: int| 0 <= k < symbols.data@.len()
                    ==> has_key(symbols.offsets@, (#[trigger] symbols.data@[k]).0@),
                forall|k: int| 0 <= k < insts@.len() ==> ((#[trigger] insts@[k])@.len() > 0
                    && insts@[k]@[0] is Ident && inst_size(line_name(insts@[k]@)) > 0),
            decreases nl - li,
        {
            let line = &lines[li];
            if line.len() == 0 {
                li = li + 1;
                continue;
            }
            let ghost pre_insts = insts@;
            match &line[0] {
                Tok::Label(name) => {
                    if line.len() > 1 {
                        return Err(ParseError::InvalidLabelDescription);
                    }
                    if symbols.offset_of(name.as_str()).is_some() {
                        return Err(ParseError::DuplicateLabelDefinition);
                    }
                    let nm = name.clone();
                    let off = code_off as u16;
                    let ghost pre = symbols;
                    proof {
                        lemma_lookup_none(pre.offsets@, nm@);
                        lemma_lookup_push(pre.offsets@, nm, off);
                    }
                    symbols.offsets.push((nm, off));
                    proof {
                        reestablish_after_offset_push(pre, symbols, nm, off, code_off as nat);
                    }
                },
                Tok::Ident(name) => {
                    if starts_with_dot(name) {
                        let is_string = crate::text::str_is(name, ".string");
                        let is_data = crate::text::str_is(name, ".data");
                        if is_string {
                            if line.len() != 3 {
                                return Err(ParseError::InvalidStringValue);
                            }
                            let nm = match &line[1] {
                                Tok::Ident(n) => n.clone(),
                                _ => {
                                    return Err(ParseError::InvalidStringValue);
                                },
                            };
                            let text = match &line[2] {
                                Tok::Str(t) => t.clone(),
                                _ => {
                                    return Err(ParseError::InvalidStringValue);
                                },
                            };
                            let len = text.as_str().unicode_len();
                            if len > 0xFFFE {
                                return Err(ParseError::InvalidString);
                            }
                            if len as u32 + 1 + data_off > 0xFFFF {
                                return Err(ParseError::InvalidString);
                            }
                            if symbols.offset_of(nm.as_str()).is_some() {
                                return Err(ParseError::DuplicateStringDefinition);
                            }
                            let off = data_off as u16;
                            let ghost pre = symbols;
                            proof {
                                lemma_lookup_none(pre.offsets@, nm@);
                                lemma_lookup_push(pre.offsets@, nm, off);
                                assert(!has_key(pre.strings@, nm@)) by {
                                    if has_key(pre.strings@, nm@) {
                                        let w = choose|k: int|
                                            0 <= k < pre.strings@.len()
                                                && (#[trigger] pre.strings@[k]).0@ == nm@;
                                    }
                                }
                                lemma_lookup_none(pre.strings@, nm@);
                                lemma_lookup_push(pre.strings@, nm, text);
                            }
                            symbols.offsets.push((nm.clone(), off));
                            symbols.strings.push((nm, text));
                            data_off = data_off + len as u32 + 1;
                            proof {
                                reestablish_after_string_push(
                                    pre,
                                    symbols,
                                    nm,
                                    off,
                                    text,
                                    code_off as nat,
                                );
                            }
                        } else if is_data {
                            if line.len() < 3 {
                                return Err(ParseError::InvalidByteValue);
                            }
                            let nm = match &line[1] {
                                Tok::Ident(n) => n.clone(),
                                _ => {
                                    return Err(ParseError::InvalidByteValue);
                                },
                            };
                            let words = match data_words(line, 2) {
                                Ok(w) => w,
                                Err(e) => {
                                    return Err(e);
                                },
                            };
                            let wlen = words.len();
                            if wlen > 0xFFFF {
                                return Err(ParseError::InvalidString);
                            }
                            if wlen as u32 + data_off > 0xFFFF {
                                return Err(ParseError::InvalidString);
                            }
                            if symbols.offset_of(nm.as_str()).is_some() {
                                return Err(ParseError::DuplicateStringDefinition);
                            }
                            let off = data_off as u16;
                            let ghost pre = symbols;
                            let ghost words_ghost = words;
                            proof {
                                lemma_lookup_none(pre.offsets@, nm@);
                                lemma_lookup_push(pre.offsets@, nm, off);
                                assert(!has_key(pre.data@, nm@)) by {
                                    if has_key(pre.data@, nm@) {
                                        let w = choose|k: int|
                                            0 <= k < pre.data@.len()
                                                && (#[trigger] pre.data@[k]).0@ == nm@;
                                    }
                                }
                                lemma_lookup_none(pre.data@, nm@);
                                lemma_lookup_push(pre.data@, nm, words_ghost);
                            }
                            symbols.offsets.push((nm.clone(), off));
                            symbols.data.push((nm, words));
                            data_off = data_off + wlen as u32;
                            proof {
                                reestablish_after_data_push(
                                    pre,
                                    symbols,
                                    nm,
                                    off,
                                    words_ghost,
                                    code_off as nat,
                                );
                            }
                        } else {
                            return Err(ParseError::UndefinedInstruction { name: name.clone() });
                        }
                    } else {
                        let sz = match op_of(name, 0) {
                            Some(op) => if op.operand().is_some() {
                                2u32
                            } else {
                                1u32
                            },
                            None => {
                                return Err(ParseError::UndefinedInstruction {
                                    name: name.clone(),
                                });
                            },
                        };
                        if code_off + sz > 0xFFFF {
                            return Err(ParseError::InvalidString);
                        }
                        code_off = code_off + sz;
                        insts.push(clone_line(line));
                        proof {
                            assert(insts@.drop_last() =~= pre_insts);
                            assert(line@[0] is Ident);
                            assert(line_name(insts@.last()@) == line_name(line@));
                            assert forall|k: int| 0 <= k < symbols.offsets@.len()
                                implies offset_entry_ok(
                                    #[trigger] symbols.offsets@[k],
                                    symbols.strings@,
                                    symbols.data@,
                                    code_off as nat,
                                )
                            by {
                                assert(offset_entry_ok(
                                    symbols.offsets@[k],
                                    symbols.strings@,
                                    symbols.data@,
                                    (code_off - sz) as nat,
                                ));
                            }
                        }
                    }
                },
                Tok::Num(_) => {
                    return Err(ParseError::InvalidArgToken);
                },
                Tok::Str(_) => {
                    return Err(ParseError::InvalidArgToken);
                },
            }
            li = li + 1;
        }

        // Second pass: emit one instruction per instruction line.
        let mut ops: Vec<Op> = Vec::new();
        let ni = insts.len();
        let mut ii: usize = 0;
        while ii < ni
            invariant
                ni == insts@.len(),
                ii <= ni,
                symbols.wf(),
                encode_ops(ops@).len() == insts_size(insts@.subrange(0, ii as int)),
                ops@.len() == ii,
                forall|k: int| 0 <= k < ii ==> line_emits(
                    (#[trigger] insts@[k])@,
                    symbols.offsets@,
                    ops@[k],
                ),
                forall|k: int| 0 <= k < insts@.len() ==> ((#[trigger] insts@[k])@.len() > 0
                    && insts@[k]@[0] is Ident && inst_size(line_name(insts@[k]@)) > 0),
            decreases ni - ii,
        {
            let line = &insts[ii];
            let name = match &line[0] {
                Tok::Ident(name) => name,
                _ => {
                    return Err(ParseError::InvalidArgToken);
                },
            };
            let operand: Option<u16> = if line.len() >= 2 {
                match resolve_arg(&symbols, &line[1]) {
                    Ok(v) => Some(v),
                    Err(e) => {
                        return Err(e);
                    },
                }
            } else {
                None
            };
            if line.len() > 2 {
                return Err(ParseError::InvalidArgument {
                    errors: vec![ParseError::InvalidArgToken],
                });
            }
            let vv: u16 = match operand {
                Some(v) => v,
                None => 0,
            };
            let op = match op_of(name, vv) {
                Some(op) => op,
                None => {
                    return Err(ParseError::UndefinedInstruction { name: name.clone() });
                },
            };
            if op.operand().is_some() != operand.is_some() {
                return Err(ParseError::InvalidArgument {
                    errors: vec![ParseError::CannotPeekAtToken],
                });
            }
            let ghost pre_ops = ops@;
            ops.push(op);
            proof {
                lemma_encode_push(pre_ops, op);
                assert(name@ == line_name(insts@[ii as int]@));
                lemma_mnemonic_stable(line_name(insts@[ii as int]@), vv, 0);
                assert(line_emits(insts@[ii as int]@, symbols.offsets@, op));
                assert(insts@.subrange(0, ii as int + 1).drop_last()
                    =~= insts@.subrange(0, ii as int));
                assert(insts@.subrange(0, ii as int + 1).last() == insts@[ii as int]);
            }
            ii = ii + 1;
        }
        proof {
            assert(insts@.subrange(0, ni as int) =~= insts@);
        }

        let p = Parser { ops, symbols };
        proof {
            assert(compiled(p.ops@).len() == encode_ops(p.ops@).len() + 1);
            assert(lines_emit(insts@, p.symbols.offsets@, p.ops@));
            assert(emitted_from_lines(p.symbols.offsets@, p.ops@));
        }
        Ok(p)
    }
}

/// Whether `line[0]` names a directive: its identifier starts with a dot.
fn starts_with_dot(name: &String) -> (r: bool)
    ensures
        r == (name@.len() > 0 && name@[0] == '.'),
{
    let s = name.as_str();
    if s.unicode_len() == 0 {
        return false;
    }
    s.get_char(0) == '.'
}

/// Whether `c` is exactly `d` (chars are compared by code point).
fn char_is(c: char, d: char) -> (r: bool)
    ensures
        r == (c == d),
{
    c == d
}

/// The word an instruction argument denotes: a literal stands for itself, an
/// identifier for its recorded offset.
fn resolve_arg(symbols: &Symbols, tok: &Tok) -> (r: Result<u16, ParseError>)
    ensures
        tok matches Tok::Num(v) ==> r == Ok::<u16, ParseError>(*v),
        tok matches Tok::Ident(name) ==> (match lookup(symbols.offsets@, name@) {
            Some(off) => r == Ok::<u16, ParseError>(off),
            None => r == Err::<u16, ParseError>(ParseError::UndefinedSymbols),
        }),
        tok is Str ==> r == Err::<u16, ParseError>(ParseError::InvalidArgToken),
        tok is Label ==> r == Err::<u16, ParseError>(ParseError::InvalidLabelDescription),
{
    match tok {
        Tok::Num(v) => Ok(*v),
        Tok::Ident(name) => match symbols.offset_of(name.as_str()) {
            Some(off) => Ok(off),
            None => Err(ParseError::UndefinedSymbols),
        },
        Tok::Str(_) => Err(ParseError::InvalidArgToken),
        Tok::Label(_) => Err(ParseError::InvalidLabelDescription),
    }
}

/// The instruction a mnemonic denotes, with `v` as operand where one is
/// taken.
fn op_of(name: &String, v: u16) -> (r: Option<Op>)
    ensures
        r == mnemonic_op(name@, v),
{
    if crate::text::str_is(name, "noop") {
        Some(Op::Noop)
    } else if crate::text::str_is(name, "halt") {
        Some(Op::Halt)
    } else if crate::text::str_is(name, "eof") {
        Some(Op::Eof)
    } else if crate::text::str_is(name, "push") {
        Some(Op::Push(v))
    } else if crate::text::str_is(name, "pop") {
        Some(Op::Pop)
    } else if crate::text::str_is(name, "dup") {
        Some(Op::Dup)
    } else if crate::text::str_is(name, "swap") {
        Some(Op::Swap)
    } else if crate::text::str_is(name, "load") {
        Some(Op::Load(v))
    } else if crate::text::str_is(name, "store") {
        Some(Op::Store(v))
    } else if crate::text::str_is(name, "load_string") {
        Some(Op::LoadString(v))
    } else if crate::text::str_is(name, "jump") {
        Some(Op::Jump(v))
    } else if crate::text::str_is(name, "jump_zero") {
        Some(Op::JumpZero(v))
    } else if crate::text::str_is(name, "jump_not_zero") {
        Some(Op::JumpNotZero(v))
    } else if crate::text::str_is(name, "call") {
        Some(Op::Call(v))
    } else if crate::text::str_is(name, "return") {
        Some(Op::Return)
    } else if crate::text::str_is(name, "print") {
        Some(Op::Print)
    } else if crate::text::str_is(name, "send") {
        Some(Op::Send)
    } else {
        None
    }
}

/// A copy of a token line (tokens own their strings, so this clones them).
fn clone_line(line: &Vec<Tok>) -> (r: Vec<Tok>)
    ensures
        r@ == line@,
{
    let mut out: Vec<Tok> = Vec::new();
    let mut i: usize = 0;
    while i < line.len()
        invariant
            i <= line@.len(),
            out@ == line@.subrange(0, i as int),
        decreases line@.len() - i,
    {
        let t: Tok = match &line[i] {
            Tok::Label(s) => Tok::Label(s.clone()),
            Tok::Ident(s) => Tok::Ident(s.clone()),
            Tok::Num(v) => Tok::Num(*v),
            Tok::Str(s) => Tok::Str(s.clone()),
        };
        out.push(t);
        proof {
            assert(out@ =~= line@.subrange(0, i as int + 1));
        }
        i = i + 1;
    }
    proof {
        assert(line@.subrange(0, line@.len() as int) =~= line@);
    }
    out
}

/// The words of the numeric tokens `line[from ..]`; any other token kind is
/// a malformed data word.
fn data_words(line: &Vec<Tok>, from: usize) -> (r: Result<Vec<u16>, ParseError>)
    requires
        from <= line@.len(),
{
    let mut words: Vec<u16> = Vec::new();
    let mut i: usize = from;
    while i < line.len()
        invariant
            from <= i <= line@.len(),
        decreases line@.len() - i,
    {
        match &line[i] {
            Tok::Num(v) => {
                words.push(*v);
            },
            _ => {
                return Err(ParseError::InvalidByteValue);
            },
        }
        i = i + 1;
    }
    Ok(words)
}

/// Tokenizes the characters of one line, `chars[start .. end]`: whitespace
/// separates tokens, `;` starts a comment, identifiers may end in `:` to
/// define a label, literals are decimal, `0x` hex, or double-quoted strings
/// with `\n`, `\t`, `\\` and `\"` escapes.
fn tokenize_line(chars: &Vec<char>, start: usize, end: usize) -> (r: Result<Vec<Tok>, ParseError>)
    requires
        start <= end <= chars@.len(),
{
    let mut toks: Vec<Tok> = Vec::new();
    let mut i: usize = start;
    while i < end
        invariant
            start <= i <= end <= chars@.len(),
        decreases end - i,
    {
        let c = chars[i];
        let u = c as u32;
        if c == ' ' || c == '\t' || c == '\r' {
            i = i + 1;
        } else if c == ';' {
            break;
        } else if c == '"' {
            let mut text = String::new();
            let mut j: usize = i + 1;
            let mut closed = false;
            while j < end && !closed
                invariant
                    i < j <= end <= chars@.len(),
                decreases end - j,
            {
                let d = chars[j];
                if d == '"' {
                    closed = true;
                    j = j + 1;
                } else if d == '\\' {
                    if j + 1 >= end {
                        return Err(ParseError::InvalidString);
                    }
                    let e = chars[j + 1];
                    if e == 'n' {
                        push_char(&mut text, '\n');
                    } else if e == 't' {
                        push_char(&mut text, '\t');
                    } else if e == '\\' {
                        push_char(&mut text, '\\');
                    } else if e == '"' {
                        push_char(&mut text, '"');
                    } else {
                        return Err(ParseError::InvalidStringValue);
                    }
                    j = j + 2;
                } else {
                    push_char(&mut text, d);
                    j = j + 1;
                }
            }
            if !closed {
                return Err(ParseError::InvalidString);
            }
            toks.push(Tok::Str(text));
            i = j;
        } else if c == '.' || c == '_' || (65 <= u && u <= 90) || (97 <= u && u <= 122) {
            let word_start = i;
            let mut j: usize = i + 1;
            while j < end && ident_char(chars[j])
                invariant
                    i < j <= end <= chars@.len(),
                decreases end - j,
            {
                j = j + 1;
            }
            let word = chars_to_string(chars, word_start, j);
            if j < end && chars[j] == ':' {
                toks.push(Tok::Label(word));
                i = j + 1;
            } else {
                toks.push(Tok::Ident(word));
                i = j;
            }
        } else if 48 <= u && u <= 57 {
            let word_start = i;
            let mut j: usize = i + 1;
            while j < end && ident_char(chars[j])
                invariant
                    i < j <= end <= chars@.len(),
                decreases end - j,
            {
                j = j + 1;
            }
            match number_value(chars, word_start, j) {
                Ok(v) => {
                    toks.push(Tok::Num(v));
                },
                Err(e) => {
                    return Err(e);
                },
            }
            i = j;
        } else if c == ':' {
            return Err(ParseError::InvalidLabelDescription);
        } else {
            return Err(ParseError::InvalidIdentifier);
        }
    }
    Ok(toks)
}

/// Whether `c` may continue an identifier or numeric lexeme.
fn ident_char(c: char) -> (r: bool) {
    let u = c as u32;
    (48 <= u && u <= 57) || (65 <= u && u <= 90) || (97 <= u && u <= 122) || c == '_'
}

/// The word value of the numeric lexeme `chars[start .. end]`: decimal, or
/// hex after a `0x` prefix; a stray character or a value over 16 bits is
/// rejected with the lexeme in the error.
fn number_value(chars: &Vec<char>, start: usize, end: usize) -> (r: Result<u16, ParseError>)
    requires
        start < end <= chars@.len(),
{
    let is_hex = end - start > 2 && chars[start] == '0' && chars[start + 1] == 'x';
    let mut value: u32 = 0;
    let mut i: usize = if is_hex {
        start + 2
    } else {
        start
    };
    while i < end
        invariant
            start <= i <= end <= chars@.len(),
            value <= 0xFFFF,
        decreases end - i,
    {
        let u = chars[i] as u32;
        let digit: u32 = if 48 <= u && u <= 57 {
            u - 48
        } else if is_hex && 97 <= u && u <= 102 {
            u - 87
        } else if is_hex && 65 <= u && u <= 70 {
            u - 55
        } else {
            return Err(bad_number(chars, start, end, is_hex));
        };
        value = if is_hex {
            value * 16 + digit
        } else {
            value * 10 + digit
        };
        if value > 0xFFFF {
            return Err(bad_number(chars, start, end, is_hex));
        }
        i = i + 1;
    }
    Ok(value as u16)
}

/// The error for a malformed numeric lexeme, carrying its text.
fn bad_number(chars: &Vec<char>, start: usize, end: usize, is_hex: bool) -> (r: ParseError)
    requires
        start <= end <= chars@.len(),
{
    let text = chars_to_string(chars, start, end);
    if is_hex {
        ParseError::InvalidHexDigit { text }
    } else {
        ParseError::InvalidDecimalDigit { text }
    }
}

/// Pushing a fresh name onto the offset table alone (a label) keeps the
/// table well formed and every entry consistent.
proof fn reestablish_after_offset_push(
    pre: Symbols,
    post: Symbols,
    nm: String,
    off: u16,
    code_bound: nat,
)
    requires
        pre.wf(),
        !has_key(pre.offsets@, nm@),
        post.offsets@ == pre.offsets@.push((nm, off)),
        post.strings@ == pre.strings@,
        post.data@ == pre.data@,
        off <= code_bound,
        forall|k: int| 0 <= k < pre.offsets@.len()
            ==> offset_entry_ok(#[trigger] pre.offsets@[k], pre.strings@, pre.data@, code_bound),
        forall|k: int| 0 <= k < pre.strings@.len()
            ==> has_key(pre.offsets@, (#[trigger] pre.strings@[k]).0@),
        forall|k: int| 0 <= k < pre.data@.len()
            ==> has_key(pre.offsets@, (#[trigger] pre.data@[k]).0@),
    ensures
        post.wf(),
        forall|k: int| 0 <= k < post.offsets@.len()
            ==> offset_entry_ok(#[trigger] post.offsets@[k], post.strings@, post.data@, code_bound),
        forall|k: int| 0 <= k < post.strings@.len()
            ==> has_key(post.offsets@, (#[trigger] post.strings@[k]).0@),
        forall|k: int| 0 <= k < post.data@.len()
            ==> has_key(post.offsets@, (#[trigger] post.data@[k]).0@),
{
    lemma_lookup_push(pre.offsets@, nm, off);
    assert(!has_key(pre.strings@, nm@)) by {
        if has_key(pre.strings@, nm@) {
            let w = choose|k: int|
                0 <= k < pre.strings@.len() && (#[trigger] pre.strings@[k]).0@ == nm@;
        }
    }
    assert(!has_key(pre.data@, nm@)) by {
        if has_key(pre.data@, nm@) {
            let w = choose|k: int|
                0 <= k < pre.data@.len() && (#[trigger] pre.data@[k]).0@ == nm@;
        }
    }
    lemma_lookup_none(pre.strings@, nm@);
    lemma_lookup_none(pre.data@, nm@);
    assert forall|k: int| 0 <= k < post.offsets@.len()
        implies offset_entry_ok(#[trigger] post.offsets@[k], post.strings@, post.data@, code_bound)
    by {
        if k < pre.offsets@.len() {
            assert(post.offsets@[k] == pre.offsets@[k]);
        } else {
            assert(post.offsets@[k] == (nm, off));
        }
    }
    assert forall|k: int| 0 <= k < post.strings@.len()
        implies has_key(post.offsets@, (#[trigger] post.strings@[k]).0@)
    by {
        let w = choose|i: int|
            0 <= i < pre.offsets@.len() && (#[trigger] pre.offsets@[i]).0@ == post.strings@[k].0@;
        assert(post.offsets@[w] == pre.offsets@[w]);
    }
    assert forall|k: int| 0 <= k < post.data@.len()
        implies has_key(post.offsets@, (#[trigger] post.data@[k]).0@)
    by {
        let w = choose|i: int|
            0 <= i < pre.offsets@.len() && (#[trigger] pre.offsets@[i]).0@ == post.data@[k].0@;
        assert(post.offsets@[w] == pre.offsets@[w]);
    }
}

/// Pushing a fresh string declaration (offset entry plus text entry) keeps
/// the tables well formed and every entry consistent.
proof fn reestablish_after_string_push(
    pre: Symbols,
    post: Symbols,
    nm: String,
    off: u16,
    text: String,
    code_bound: nat,
)
    requires
        pre.wf(),
        !has_key(pre.offsets@, nm@),
        !has_key(pre.strings@, nm@),
        post.offsets@ == pre.offsets@.push((nm, off)),
        post.strings@ == pre.strings@.push((nm, text)),
        post.data@ == pre.data@,
        off + text@.len() + 1 <= 0xFFFF,
        forall|k: int| 0 <= k < pre.offsets@.len()
            ==> offset_entry_ok(#[trigger] pre.offsets@[k], pre.strings@, pre.data@, code_bound),
        forall|k: int| 0 <= k < pre.strings@.len()
            ==> has_key(pre.offsets@, (#[trigger] pre.strings@[k]).0@),
        forall|k: int| 0 <= k < pre.data@.len()
            ==> has_key(pre.offsets@, (#[trigger] pre.data@[k]).0@),
    ensures
        post.wf(),
        forall|k: int| 0 <= k < post.offsets@.len()
            ==> offset_entry_ok(#[trigger] post.offsets@[k], post.strings@, post.data@, code_bound),
        forall|k: int| 0 <= k < post.strings@.len()
            ==> has_key(post.offsets@, (#[trigger] post.strings@[k]).0@),
        forall|k: int| 0 <= k < post.data@.len()
            ==> has_key(post.offsets@, (#[trigger] post.data@[k]).0@),
{
    lemma_lookup_push(pre.offsets@, nm, off);
    lemma_lookup_push(pre.strings@, nm, text);
    assert forall|k: int| 0 <= k < post.offsets@.len()
        implies offset_entry_ok(#[trigger] post.offsets@[k], post.strings@, post.data@, code_bound)
    by {
        if k < pre.offsets@.len() {
            assert(post.offsets@[k] == pre.offsets@[k]);
            assert(pre.offsets@[k].0@ != nm@);
            assert(lookup(post.strings@, pre.offsets@[k].0@)
                == lookup(pre.strings@, pre.offsets@[k].0@));
        } else {
            assert(post.offsets@[k] == (nm, off));
            assert(lookup(post.strings@, nm@) == Some(text));
        }
    }
    assert forall|k: int| 0 <= k < post.strings@.len()
        implies has_key(post.offsets@, (#[trigger] post.strings@[k]).0@)
    by {
        if k < pre.strings@.len() {
            assert(post.strings@[k] == pre.strings@[k]);
            let w = choose|i: int|
                0 <= i < pre.offsets@.len() && (#[trigger] pre.offsets@[i]).0@
                    == pre.strings@[k].0@;
            assert(post.offsets@[w] == pre.offsets@[w]);
        } else {
            assert(post.strings@[k] == (nm, text));
            assert(post.offsets@[pre.offsets@.len() as int] == (nm, off));
        }
    }
    assert forall|k: int| 0 <= k < post.data@.len()
        implies has_key(post.offsets@, (#[trigger] post.data@[k]).0@)
    by {
        let w = choose|i: int|
            0 <= i < pre.offsets@.len() && (#[trigger] pre.offsets@[i]).0@ == post.data@[k].0@;
        assert(post.offsets@[w] == pre.offsets@[w]);
    }
}

/// Pushing a fresh data declaration (offset entry plus word array) keeps the
/// tables well formed and every entry consistent.
proof fn reestablish_after_data_push(
    pre: Symbols,
    post: Symbols,
    nm: String,
    off: u16,
    words: Vec<u16>,
    code_bound: nat,
)
    requires
        pre.wf(),
        !has_key(pre.offsets@, nm@),
        !has_key(pre.data@, nm@),
        post.offsets@ == pre.offsets@.push((nm, off)),
        post.data@ == pre.data@.push((nm, words)),
        post.strings@ == pre.strings@,
        off + words@.len() <= 0xFFFF,
        forall|k: int| 0 <= k < pre.offsets@.len()
            ==> offset_entry_ok(#[trigger] pre.offsets@[k], pre.strings@, pre.data@, code_bound),
        forall|k: int| 0 <= k < pre.strings@.len()
            ==> has_key(pre.offsets@, (#[trigger] pre.strings@[k]).0@),
        forall|k: int| 0 <= k < pre.data@.len()
            ==> has_key(pre.offsets@, (#[trigger] pre.data@[k]).0@),
    ensures
        post.wf(),
        forall|k: int| 0 <= k < post.offsets@.len()
            ==> offset_entry_ok(#[trigger] post.offsets@[k], post.strings@, post.data@, code_bound),
        forall|k: int| 0 <= k < post.strings@.len()
            ==> has_key(post.offsets@, (#[trigger] post.strings@[k]).0@),
        forall|k: int| 0 <= k < post.data@.len()
            ==> has_key(post.offsets@, (#[trigger] post.data@[k]).0@),
{
    lemma_lookup_push(pre.offsets@, nm, off);
    lemma_lookup_push(pre.data@, nm, words);
    assert(!has_key(pre.strings@, nm@)) by {
        if has_key(pre.strings@, nm@) {
            let w = choose|k: int|
                0 <= k < pre.strings@.len() && (#[trigger] pre.strings@[k]).0@ == nm@;
        }
    }
    lemma_lookup_none(pre.strings@, nm@);
    assert forall|k: int| 0 <= k < post.offsets@.len()
        implies offset_entry_ok(#[trigger] post.offsets@[k], post.strings@, post.data@, code_bound)
    by {
        if k < pre.offsets@.len() {
            assert(post.offsets@[k] == pre.offsets@[k]);
            assert(pre.offsets@[k].0@ != nm@);
            assert(lookup(post.data@, pre.offsets@[k].0@)
                == lookup(pre.data@, pre.offsets@[k].0@));
        } else {
            assert(post.offsets@[k] == (nm, off));
            assert(lookup(post.strings@, nm@) is None);
            assert(lookup(post.data@, nm@) == Some(words));
        }
    }
    assert forall|k: int| 0 <= k < post.strings@.len()
        implies has_key(post.offsets@, (#[trigger] post.strings@[k]).0@)
    by {
        let w = choose|i: int|
            0 <= i < pre.offsets@.len() && (#[trigger] pre.offsets@[i]).0@ == post.strings@[k].0@;
        assert(post.offsets@[w] == pre.offsets@[w]);
    }
    assert forall|k: int| 0 <= k < post.data@.len()
        implies has_key(post.offsets@, (#[trigger] post.data@[k]).0@)
    by {
        if k < pre.data@.len() {
            assert(post.data@[k] == pre.data@[k]);
            let w = choose|i: int|
                0 <= i < pre.offsets@.len() && (#[trigger] pre.offsets@[i]).0@
                    == pre.data@[k].0@;
            assert(post.offsets@[w] == pre.offsets@[w]);
        } else {
            assert(post.data@[k] == (nm, words));
            assert(post.offsets@[pre.offsets@.len() as int] == (nm, off));
        }
    }
}

} // verus!
