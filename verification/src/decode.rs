//! The instruction decoder: tokenizing trimmed lines, resolving mnemonics
//! through the fixed table, and parsing operands.

use vstd::prelude::*;

use crate::numbers::parse_u16_spec;
use crate::numbers::parse_u16_str;
use crate::text::find_char;
use crate::text::find_char_from;
use crate::text::split_and_trim;
use crate::text::split_and_trim_spec;
use crate::text::str_eq;

verus! {

/// The mathematical content of one instruction record.
pub ghost struct InstrModel {
    pub name: Seq<char>,
    pub code: u16,
    pub operand: Option<u16>,
}

/// The mathematical content of a decode failure, carrying the offending
/// token.
pub ghost enum ErrModel {
    UnknownMnemonic(Seq<char>),
    InvalidOperand(Seq<char>),
}

/// The operation code of a mnemonic, by the fixed table; `None` for a name
/// outside the table.
pub open spec fn code_of(name: Seq<char>) -> Option<u16> {
    if name == "HLT"@ {
        Some(0u16)
    } else if name == "ADD"@ {
        Some(1u16)
    } else if name == "SUB"@ {
        Some(2u16)
    } else if name == "STA"@ {
        Some(3u16)
    } else if name == "LDA"@ {
        Some(5u16)
    } else if name == "BRA"@ {
        Some(6u16)
    } else if name == "BRZ"@ {
        Some(7u16)
    } else if name == "BRP"@ {
        Some(8u16)
    } else if name == "INP"@ {
        Some(901u16)
    } else if name == "OUT"@ {
        Some(902u16)
    } else if name == "DAT"@ {
        Some(1000u16)
    } else {
        None
    }
}

/// Every mnemonic of the table is three characters long, with no white
/// space, no slash, and no plus sign among them.
pub proof fn lemma_table_name_shape(name: Seq<char>)
    requires
        code_of(name) is Some,
    ensures
        name.len() == 3,
        forall|i: int| 0 <= i < name.len() ==> !crate::text::is_space_char(#[trigger] name[i]),
        forall|i: int| 0 <= i < name.len() ==> #[trigger] name[i] != '/',
{
    reveal_strlit("HLT");
    reveal_strlit("ADD");
    reveal_strlit("SUB");
    reveal_strlit("STA");
    reveal_strlit("LDA");
    reveal_strlit("BRA");
    reveal_strlit("BRZ");
    reveal_strlit("BRP");
    reveal_strlit("INP");
    reveal_strlit("OUT");
    reveal_strlit("DAT");
}

/// The first space-delimited token of a line; the whole line when it holds
/// no space, the empty sequence when the line is empty or starts with a
/// space.
pub open spec fn first_token(line: Seq<char>) -> Seq<char> {
    line.subrange(0, find_char(line, ' ', 0))
}

/// The second space-delimited token of a line, when a first space exists:
/// what stands between the first space and the next one or the end.
pub open spec fn second_token(line: Seq<char>) -> Option<Seq<char>> {
    let p = find_char(line, ' ', 0);
    if p == line.len() {
        None
    } else {
        Some(line.subrange(p + 1, find_char(line, ' ', p + 1)))
    }
}

/// Whether the decoder skips a line as a full-line comment.
pub open spec fn is_comment(line: Seq<char>) -> bool {
    line.len() >= 2 && line[0] == '/' && line[1] == '/'
}

/// What decoding does with one trimmed line: skip it, emit a record, or
/// fail.
pub ghost enum LineStep {
    Skip,
    Emit(InstrModel),
    Fail(ErrModel),
}

/// The decoding of one trimmed line. Comments and lines with an empty first
/// token are skipped; an unknown non-empty mnemonic or an unparsable second
/// token is fatal.
pub open spec fn decode_line(line: Seq<char>) -> LineStep {
    if is_comment(line) {
        LineStep::Skip
    } else {
        let name = first_token(line);
        match code_of(name) {
            Option::None => {
                if name.len() == 0 {
                    LineStep::Skip
                } else {
                    LineStep::Fail(ErrModel::UnknownMnemonic(name))
                }
            },
            Option::Some(code) => {
                match second_token(line) {
                    Option::None => LineStep::Emit(
                        InstrModel { name, code, operand: Option::None },
                    ),
                    Option::Some(tok) => {
                        match parse_u16_spec(tok) {
                            Option::Some(v) => LineStep::Emit(
                                InstrModel { name, code, operand: Option::Some(v) },
                            ),
                            Option::None => LineStep::Fail(ErrModel::InvalidOperand(tok)),
                        }
                    },
                }
            },
        }
    }
}

/// The decoding of the lines from position `i` on: the records of the
/// non-skipped lines in order, or the first failure.
pub open spec fn decode_from(lines: Seq<Seq<char>>, i: int) -> Result<Seq<InstrModel>, ErrModel>
    decreases lines.len() - i,
{
    if i < 0 || i >= lines.len() {
        Ok(Seq::empty())
    } else {
        match decode_line(lines[i]) {
            LineStep::Skip => decode_from(lines, i + 1),
            LineStep::Fail(e) => Err(e),
            LineStep::Emit(m) => match decode_from(lines, i + 1) {
                Ok(rest) => Ok(seq![m] + rest),
                Err(e) => Err(e),
            },
        }
    }
}

/// What decoding a whole source text yields: its lines split on newlines,
/// trimmed, and decoded in order.
pub open spec fn decode_spec(s: Seq<char>) -> Result<Seq<InstrModel>, ErrModel> {
    decode_from(split_and_trim_spec(s), 0)
}

/// A record is well formed when its code is the table's code for its
/// mnemonic.
pub open spec fn instr_wf(m: InstrModel) -> bool {
    code_of(m.name) == Some(m.code)
}

/// A decoded instruction: the mnemonic as written, its operation code from
/// the fixed table, and the operand when the line carried one.
#[derive(Debug)]
pub struct Instruction {
    name: String,
    code: u16,
    operand: Option<u16>,
}

impl View for Instruction {
    type V = InstrModel;

    closed spec fn view(&self) -> InstrModel {
        InstrModel { name: self.name@, code: self.code, operand: self.operand }
    }
}

impl DeepView for Instruction {
    type V = InstrModel;

    open spec fn deep_view(&self) -> InstrModel {
        self@
    }
}

impl Instruction {
    /// The mnemonic exactly as it appeared in source.
    pub fn name(&self) -> (r: &String)
        ensures
            r@ == self@.name,
    {
        &self.name
    }

    /// The operation code the table gives for the mnemonic.
    pub fn code(&self) -> (r: u16)
        ensures
            r == self@.code,
    {
        self.code
    }

    /// The operand value, when the source line carried a second token.
    pub fn operand(&self) -> (r: Option<u16>)
        ensures
            r == self@.operand,
    {
        self.operand
    }
}

/// Why decoding failed, with the offending token.
#[derive(Debug)]
pub enum DecodeError {
    UnknownMnemonic(String),
    InvalidOperand(String),
}

impl View for DecodeError {
    type V = ErrModel;

    open spec fn view(&self) -> ErrModel {
        match self {
            DecodeError::UnknownMnemonic(t) => ErrModel::UnknownMnemonic(t@),
            DecodeError::InvalidOperand(t) => ErrModel::InvalidOperand(t@),
        }
    }
}

/// The table lookup on a mnemonic token.
fn lookup_code(name: &str) -> (r: Option<u16>)
    ensures
        r == code_of(name@),
{
    if str_eq(name, "HLT") {
        Some(0)
    } else if str_eq(name, "ADD") {
        Some(1)
    } else if str_eq(name, "SUB") {
        Some(2)
    } else if str_eq(name, "STA") {
        Some(3)
    } else if str_eq(name, "LDA") {
        Some(5)
    } else if str_eq(name, "BRA") {
        Some(6)
    } else if str_eq(name, "BRZ") {
        Some(7)
    } else if str_eq(name, "BRP") {
        Some(8)
    } else if str_eq(name, "INP") {
        Some(901)
    } else if str_eq(name, "OUT") {
        Some(902)
    } else if str_eq(name, "DAT") {
        Some(1000)
    } else {
        None
    }
}

/// Decodes assembly source text into its instruction records, in source
/// order, or fails on the first unknown mnemonic or invalid operand.
pub fn str_to_instructions(s: &str) -> (r: Result<Vec<Instruction>, DecodeError>)
    ensures
        (match r {
            Ok(v) => decode_spec(s@) == Ok::<Seq<InstrModel>, ErrModel>(v.deep_view()),
            Err(e) => decode_spec(s@) == Err::<Seq<InstrModel>, ErrModel>(e@),
        }),
{
    let lines: Vec<&str> = split_and_trim(s);
    let ghost lds: Seq<Seq<char>> = lines.deep_view();
    let mut out: Vec<Instruction> = Vec::new();
    let mut i: usize = 0;
    proof {
        assert(out.deep_view() + Seq::<InstrModel>::empty() =~= Seq::<InstrModel>::empty());
    }
    while i < lines.len()
        invariant
            i <= lines.len(),
            lds == split_and_trim_spec(s@),
            lds == lines.deep_view(),
            lds.len() == lines@.len(),
            (match decode_from(lds, i as int) {
                Ok(rest) => decode_from(lds, 0) == Ok::<Seq<InstrModel>, ErrModel>(
                    out.deep_view() + rest,
                ),
                Err(e) => decode_from(lds, 0) == Err::<Seq<InstrModel>, ErrModel>(e),
            }),
        decreases lines.len() - i,
    {
        let line: &str = lines[i];
        proof {
            assert(lds[i as int] == line@);
        }
        let n = line.unicode_len();
        if n >= 2 && line.get_char(0) == '/' && line.get_char(1) == '/' {
            proof {
                assert(is_comment(line@));
                assert(decode_line(lds[i as int]) == LineStep::Skip);
            }
            i += 1;
            continue;
        }
        proof {
            assert(!is_comment(line@));
        }
        let p1 = find_char_from(line, ' ', 0, n);
        let name = line.substring_char(0, p1);
        proof {
            assert(name@ == first_token(line@));
        }
        match lookup_code(name) {
            None => {
                if p1 == 0 {
                    proof {
                        assert(name@.len() == 0);
                        assert(decode_line(lds[i as int]) == LineStep::Skip);
                    }
                    i += 1;
                } else {
                    let e = DecodeError::UnknownMnemonic(name.to_owned());
                    proof {
                        assert(decode_line(lds[i as int]) == LineStep::Fail(
                            ErrModel::UnknownMnemonic(name@),
                        ));
                    }
                    return Err(e);
                }
            },
            Some(code) => {
                if p1 == n {
                    proof {
                        assert(second_token(line@) is None);
                    }
                    let ghost m = InstrModel { name: name@, code, operand: Option::None };
                    let ghost prevd = out.deep_view();
                    out.push(Instruction { name: name.to_owned(), code, operand: None });
                    proof {
                        assert(decode_line(lds[i as int]) == LineStep::Emit(m));
                        assert(out.deep_view() =~= prevd.push(m));
                        match decode_from(lds, i as int + 1) {
                            Ok(rest) => {
                                assert(decode_from(lds, i as int) == Ok::<
                                    Seq<InstrModel>,
                                    ErrModel,
                                >(seq![m] + rest));
                                assert(prevd + (seq![m] + rest) =~= prevd.push(m) + rest);
                            },
                            Err(e) => {
                                assert(decode_from(lds, i as int) == Err::<
                                    Seq<InstrModel>,
                                    ErrModel,
                                >(e));
                            },
                        }
                    }
                    i += 1;
                } else {
                    let p2 = find_char_from(line, ' ', p1 + 1, n);
                    let tok = line.substring_char(p1 + 1, p2);
                    proof {
                        assert(second_token(line@) == Some(tok@));
                    }
                    match parse_u16_str(tok, p2 - (p1 + 1)) {
                        Some(v) => {
                            let ghost m = InstrModel {
                                name: name@,
                                code,
                                operand: Option::Some(v),
                            };
                            let ghost prevd = out.deep_view();
                            out.push(
                                Instruction { name: name.to_owned(), code, operand: Some(v) },
                            );
                            proof {
                                assert(decode_line(lds[i as int]) == LineStep::Emit(m));
                                assert(out.deep_view() =~= prevd.push(m));
                                match decode_from(lds, i as int + 1) {
                                    Ok(rest) => {
                                        assert(decode_from(lds, i as int) == Ok::<
                                            Seq<InstrModel>,
                                            ErrModel,
                                        >(seq![m] + rest));
                                        assert(prevd + (seq![m] + rest) =~= prevd.push(m) + rest);
                                    },
                                    Err(e) => {
                                        assert(decode_from(lds, i as int) == Err::<
                                            Seq<InstrModel>,
                                            ErrModel,
                                        >(e));
                                    },
                                }
                            }
                            i += 1;
                        },
                        None => {
                            let e = DecodeError::InvalidOperand(tok.to_owned());
                            proof {
                                assert(decode_line(lds[i as int]) == LineStep::Fail(
                                    ErrModel::InvalidOperand(tok@),
                                ));
                            }
                            return Err(e);
                        },
                    }
                }
            },
        }
    }
    proof {
        assert(decode_from(lds, i as int) == Ok::<Seq<InstrModel>, ErrModel>(Seq::empty()));
        assert(out.deep_view() + Seq::<InstrModel>::empty() =~= out.deep_view());
    }
    Ok(out)
}

} // verus!
